use invar::analyzer::{
    extract_variable_name, is_state_variable_declaration, ChainAnalyzer, EvmAnalyzer,
    MoveAnalyzer, SolanaAnalyzer, SolanaFunction,
};
use invar::cli::{check_chain, list_known, parse_format, report_on_input, write_report, ReportFormat};
use invar::generator::{generate_evm_checks, generate_move_checks, generate_solana_checks};

const SOLIDITY: &str = "pragma solidity ^0.8.0;\r\n\
\n\
  contract Vault is Ownable {\n\
    uint256 public totalSupply;\n\
    mapping(address => uint256) balances;\n\
    address private owner = msg.sender;\n\
    bool paused;\n\
    string;\n\
    int function_count;\n\
\n\
    function deposit(uint256 amount) public payable {\n\
    function   withdraw (uint256 amount) external {\n\
    function helper() internal {\n\
    modifier x() { public function }\n\
  }\n\
contract Second { }\n";

#[test]
fn the_contract_name_is_that_of_the_first_contract_line() {
    assert_eq!(EvmAnalyzer::extract_contract_name(SOLIDITY), Some("Vault is Ownable".to_string()));
    assert_eq!(EvmAnalyzer::extract_contract_name("contract A{"), Some("A".to_string()));
    assert_eq!(EvmAnalyzer::extract_contract_name("contract  B (x);"), Some("B".to_string()));
    assert_eq!(
        EvmAnalyzer::extract_contract_name("\t contract C; contract D"),
        Some("C".to_string())
    );
    assert_eq!(EvmAnalyzer::extract_contract_name("contract "), Some(String::new()));
    assert_eq!(EvmAnalyzer::extract_contract_name("// contract E {"), None);
    assert_eq!(EvmAnalyzer::extract_contract_name("contractF {"), None);
    assert_eq!(EvmAnalyzer::extract_contract_name(""), None);
    // The name ends where the keyword occurs again.
    assert_eq!(
        EvmAnalyzer::extract_contract_name("contract my contract G {"),
        Some("my".to_string())
    );
}

#[test]
fn public_and_external_functions_are_found() {
    assert_eq!(
        EvmAnalyzer::extract_public_functions(SOLIDITY),
        vec!["deposit", "withdraw", "}"]
    );
    assert_eq!(
        EvmAnalyzer::extract_public_functions("function a() public view returns (uint) {"),
        vec!["a"]
    );
    assert!(EvmAnalyzer::extract_public_functions("function a() private {").is_empty());
    assert!(EvmAnalyzer::extract_public_functions("public function").is_empty());
    assert_eq!(EvmAnalyzer::extract_public_functions("public function "), vec![""]);
}

#[test]
fn state_variables_are_found() {
    assert_eq!(
        EvmAnalyzer::extract_state_variables(SOLIDITY),
        vec!["totalSupply", "mapping", "owner", "paused", "string"]
    );
    assert!(is_state_variable_declaration("uint256 public balance;"));
    assert!(is_state_variable_declaration("internal x;"));
    assert!(is_state_variable_declaration("mapping(address => uint) m;"));
    assert!(!is_state_variable_declaration(" uint256 x;"));
    assert!(!is_state_variable_declaration("uint function_count;"));
    assert!(!is_state_variable_declaration("contract X"));
    assert_eq!(extract_variable_name("uint256 public balance;"), Some("balance".to_string()));
    assert_eq!(extract_variable_name("uint8[] values = [1];"), Some("values".to_string()));
    assert_eq!(extract_variable_name("address owner=x;"), Some("owner".to_string()));
    assert_eq!(extract_variable_name("bool"), None);
    assert_eq!(extract_variable_name("   "), None);
    assert_eq!(extract_variable_name("uint =5"), None);
    assert_eq!(extract_variable_name("bytes32 h;"), Some("bytes32".to_string()));
}

#[test]
fn an_evm_model_has_the_functions_as_entry_points() {
    let program = EvmAnalyzer.analyze(SOLIDITY, "contracts/vault.sol").unwrap();
    assert_eq!(program.name, "Vault is Ownable");
    assert_eq!(program.chain, "evm");
    assert_eq!(program.source_path, "contracts/vault.sol");
    assert!(program.state_vars.is_empty());
    assert_eq!(program.functions.len(), 3);
    let deposit = program.functions.get("deposit").unwrap();
    assert!(deposit.is_entry_point && !deposit.is_pure);
    assert!(deposit.parameters.is_empty() && deposit.return_type.is_none());
    assert!(deposit.mutates.is_empty() && deposit.reads.is_empty());
    assert!(program.mutation_graph.get("withdraw").unwrap().is_empty());
    assert_eq!(EvmAnalyzer.analyze("", "x").unwrap().name, "UnknownContract");
    assert_eq!(EvmAnalyzer.chain(), "evm");
}

const MOVE: &str = "module 0x1::coin {\n\
    struct Coin<T> has store { value: u64 }\n\
    resource struct Vault { }\n\
    struct Plain\n\
    public fun mint(amount: u64): Coin {\n\
    public(friend) fun hidden() {\n\
    fun private() {\n\
      public fun burn (c: Coin) {\n\
}\n";

#[test]
fn move_modules_are_read() {
    assert_eq!(MoveAnalyzer::extract_module_name(MOVE), Some("0x1".to_string()));
    assert_eq!(MoveAnalyzer::extract_module_name("module m;"), Some("m".to_string()));
    assert_eq!(MoveAnalyzer::extract_module_name("script {"), None);
    assert_eq!(MoveAnalyzer::extract_public_functions(MOVE), vec!["mint", "burn"]);
    assert_eq!(MoveAnalyzer::extract_resource_types(MOVE), vec!["Coin", "Vault", "Plain"]);
    let program = MoveAnalyzer.analyze(MOVE, "coin.move").unwrap();
    assert_eq!((program.name.as_str(), program.chain.as_str()), ("0x1", "move"));
    assert_eq!(program.functions.len(), 2);
    assert_eq!(MoveAnalyzer.analyze("fun x() {}", "x").unwrap().name, "move_module");
    assert_eq!(MoveAnalyzer.chain(), "move");
}

#[test]
fn a_solana_model_is_built_from_structs_and_functions() {
    let structs = vec!["Vault".to_string(), "Config".to_string()];
    let functions = vec![
        SolanaFunction { name: "process".to_string(), parameters: 3, is_entry: true },
        SolanaFunction { name: "helper".to_string(), parameters: 0, is_entry: false },
        SolanaFunction { name: "process".to_string(), parameters: 1, is_entry: false },
    ];
    let program = SolanaAnalyzer::build_model("lib.rs", &structs, &functions);
    assert_eq!(program.name, "solana_program");
    assert_eq!(program.chain, "solana");
    assert_eq!(program.source_path, "lib.rs");
    assert_eq!(program.state_vars.len(), 2);
    let config = program.state_vars.get("Config").unwrap();
    assert_eq!(config.declared_type, "struct");
    assert!(!config.is_mutable && config.visibility.is_none());
    assert_eq!(program.functions.len(), 2);
    let process = program.functions.get("process").unwrap();
    assert_eq!(process.parameters, vec!["param"]);
    assert!(!process.is_entry_point && !process.is_pure);
    assert!(program.functions.get("helper").unwrap().parameters.is_empty());
    assert_eq!(SolanaAnalyzer.chain(), "solana");
}

#[test]
fn checks_files_count_lines_bytes_and_checks() {
    assert_eq!(
        generate_solana_checks("assert!(a);\nassert_eq!(b, c);\n// é"),
        "//! Generated Solana invariant checks\n//! Source analysis: 3 lines, 35 bytes\n//! \
         Detected checks: 2\n\n/// Verify Solana invariants\npub fn verify_invariants() -> \
         ProgramResult {\n// 2 invariant checks compiled\nOk(())\n}\n"
    );
    assert_eq!(
        generate_evm_checks(""),
        "// Generated EVM invariant checks\n// Source analysis: 0 lines, 0 bytes\n// Detected \
         checks: 1\n\n/// Enforce state invariants\nmodifier invariantState() {\n_;\n// 1 \
         invariant checks enforced\n}\n"
    );
    assert_eq!(
        generate_move_checks("assertassertassert\n\n"),
        "/// Generated Move invariant checks\n/// Source analysis: 2 lines, 20 bytes\n/// \
         Detected checks: 3\n\n/// Verify Move invariants\npublic fun verify_invariants() {\n// 3 \
         invariant checks compiled\n}\n"
    );
    assert!(generate_evm_checks("require(x); require(y);").contains("Detected checks: 2\n"));
}

#[test]
fn chains_and_formats_are_known_by_name() {
    for chain in ["solana", "evm", "move"] {
        assert_eq!(check_chain(chain), Ok(()));
    }
    assert_eq!(
        check_chain("bitcoin"),
        Err("Unknown chain: bitcoin. Supported: solana, evm, move".to_string())
    );
    assert_eq!(check_chain("EVM").is_err(), true);
    assert_eq!(parse_format("json"), Ok(ReportFormat::Json));
    assert_eq!(parse_format("markdown"), Ok(ReportFormat::Markdown));
    assert_eq!(parse_format("cli"), Ok(ReportFormat::Cli));
    assert_eq!(
        parse_format("xml"),
        Err("Unknown format: xml. Supported: json, markdown, cli".to_string())
    );
}

#[test]
fn reports_count_invariants_and_violations() {
    let input = "invariant a holds\ninvariant b: violation\ninvariants";
    assert_eq!(
        report_on_input(ReportFormat::Json, input),
        Some(
            "{\"invariants\": 3, \"protected\": 2, \"violations\": 1, \"coverage\": 100}"
                .to_string()
        )
    );
    assert_eq!(
        report_on_input(ReportFormat::Markdown, ""),
        Some(
            "# Invariant Report\n\n- **Invariants**: 1\n- **Protected**: 1\n- **Violations**: \
             0\n- **Coverage**: 100%\n"
                .to_string()
        )
    );
    assert_eq!(
        report_on_input(ReportFormat::Cli, "violation"),
        Some("Invariants: 1\nProtected: 0\nViolations: 1\nCoverage: 100%".to_string())
    );
    assert_eq!(report_on_input(ReportFormat::Cli, "violation violation"), None);
    assert_eq!(
        write_report(ReportFormat::Cli, 10, 4),
        "Invariants: 10\nProtected: 6\nViolations: 4\nCoverage: 100%"
    );
}

#[test]
fn known_invariants_are_listed_by_category() {
    let names = |c: Option<&str>| -> Vec<&str> { list_known(c).iter().map(|k| k.name).collect() };
    assert_eq!(
        names(None),
        vec!["balance_conservation", "no_negative_balance", "access_control", "state_consistency"]
    );
    assert_eq!(names(Some("deFi")), vec!["balance_conservation", "no_negative_balance"]);
    assert_eq!(names(Some("security")), vec!["access_control"]);
    assert!(names(Some("defi")).is_empty());
    let all = list_known(Some("general"));
    assert_eq!(all[0].category, "general");
    assert_eq!(all[0].description, "State variables remain internally consistent");
}
