//! Chain analyzers: what the source text of a contract or module says of
//! its name, its functions and its state.

use crate::error::InvarError;
use crate::model::{FunctionModel, ProgramModel, StateVar};
use crate::ordmap::OrderedSet;
use crate::text::{
    chars_views, contains_chars, contains_seq, from_chars, lines_of, matches_at, piece_until,
    second_piece, second_piece_span, skip_space, span_views, split_lines, split_words,
    starts_with_seq, strings_view, to_chars, trim_of, trim_span, trim_start_of, until_any,
    words_of,
};
use vstd::prelude::*;
use vstd::slice::slice_subrange;
use vstd::string::*;

verus! {

/// Analyzes the source of a program and extracts its model.
pub trait ChainAnalyzer {
    /// Analyze a program, given its source text and the path that the
    /// text was read from.
    fn analyze(&self, source: &str, source_path: &str) -> Result<ProgramModel, InvarError>;

    /// Chain identifier: "solana", "evm", "move".
    fn chain(&self) -> &str;
}

/// What follows the first occurrence of `keyword` in `line`, up to the
/// next occurrence and cut at the first of `stops`, without white space
/// around it. Nothing if `keyword` does not occur.
pub open spec fn name_after(line: Seq<char>, keyword: Seq<char>, stops: Seq<char>) -> Option<
    Seq<char>,
> {
    match second_piece(line, keyword) {
        None => None,
        Some(part) => Some(trim_of(piece_until(part, stops))),
    }
}

/// For the first line that, after the white space at its start, begins
/// with `keyword`: the name after the keyword.
pub open spec fn first_named(lines: Seq<Seq<char>>, keyword: Seq<char>, stops: Seq<char>) -> Option<
    Seq<char>,
>
    decreases lines.len(),
{
    if lines.len() == 0 {
        None
    } else if starts_with_seq(trim_start_of(lines[0]), keyword) {
        name_after(lines[0], keyword, stops)
    } else {
        first_named(lines.drop_first(), keyword, stops)
    }
}

/// For each of the first `n` lines that `pick` gives a text for, that
/// text, in order. `pick` is given the line without the white space at
/// its start.
pub open spec fn gathered(
    lines: Seq<Seq<char>>,
    pick: spec_fn(Seq<char>) -> Option<Seq<char>>,
    n: nat,
) -> Seq<Seq<char>>
    decreases n,
{
    if n == 0 || n > lines.len() {
        Seq::<Seq<char>>::empty()
    } else {
        match pick(trim_start_of(lines[n - 1])) {
            Some(name) => gathered(lines, pick, (n - 1) as nat).push(name),
            None => gathered(lines, pick, (n - 1) as nat),
        }
    }
}

/// The name of the function that a line of Solidity declares public or
/// external.
pub open spec fn evm_function(line: Seq<char>) -> Option<Seq<char>> {
    if (contains_seq(line, "public "@) || contains_seq(line, "external "@)) && contains_seq(
        line,
        "function "@,
    ) {
        name_after(line, "function "@, seq!['('])
    } else {
        None
    }
}

/// The name of the function that a line of Move declares public.
pub open spec fn move_function(line: Seq<char>) -> Option<Seq<char>> {
    if starts_with_seq(line, "public fun "@) {
        name_after(line, "public fun "@, seq!['('])
    } else {
        None
    }
}

/// The name of the struct that a line of Move declares.
pub open spec fn move_resource(line: Seq<char>) -> Option<Seq<char>> {
    if starts_with_seq(line, "resource struct "@) {
        name_after(line, "resource struct "@, seq!['{', '(', '<'])
    } else if starts_with_seq(line, "struct "@) {
        name_after(line, "struct "@, seq!['{', '(', '<'])
    } else {
        None
    }
}

/// Whether a line of Solidity declares a state variable: it begins with
/// the name of a type and does not speak of a function.
pub open spec fn declares_state(line: Seq<char>) -> bool {
    (starts_with_seq(line, "uint"@) || starts_with_seq(line, "int"@) || starts_with_seq(
        line,
        "address"@,
    ) || starts_with_seq(line, "bool"@) || starts_with_seq(line, "bytes"@) || starts_with_seq(
        line,
        "string"@,
    ) || starts_with_seq(line, "mapping"@)) && !contains_seq(line, "function"@)
}

/// Whether a word of a declaration belongs to its type or visibility.
pub open spec fn is_declarator(word: Seq<char>) -> bool {
    starts_with_seq(word, "uint"@) || starts_with_seq(word, "int"@) || word == "public"@ || word
        == "private"@ || word == "mapping"@ || word == "address"@ || word == "bool"@ || word
        == "bytes"@ || word == "string"@
}

/// The first of `words` that is no declarator.
pub open spec fn first_plain_word(words: Seq<Seq<char>>) -> Option<Seq<char>>
    decreases words.len(),
{
    if words.len() == 0 {
        None
    } else if is_declarator(words[0]) {
        first_plain_word(words.drop_first())
    } else {
        Some(words[0])
    }
}

/// The name of the variable that a declaration declares: its first word
/// that is no declarator, cut at the first of `;`, `=`, `(` and `[`.
/// Nothing if there is no such word or nothing is left of it.
pub open spec fn variable_name(line: Seq<char>) -> Option<Seq<char>> {
    match first_plain_word(words_of(line)) {
        None => None,
        Some(word) => {
            let name = trim_of(piece_until(word, seq![';', '=', '(', '[']));
            if name.len() == 0 {
                None
            } else {
                Some(name)
            }
        },
    }
}

/// The name of the state variable that a line of Solidity declares.
pub open spec fn evm_state_variable(line: Seq<char>) -> Option<Seq<char>> {
    if declares_state(line) {
        variable_name(line)
    } else {
        None
    }
}

fn begins(s: &[char], word: &str) -> (r: bool)
    ensures
        r == starts_with_seq(s@, word@),
{
    let w = to_chars(word);
    matches_at(s, w.as_slice(), 0)
}

fn holds(s: &[char], word: &str) -> (r: bool)
    ensures
        r == contains_seq(s@, word@),
{
    let w = to_chars(word);
    contains_chars(s, w.as_slice())
}

fn is_word(s: &[char], word: &str) -> (r: bool)
    ensures
        r == (s@ == word@),
{
    let w = to_chars(word);
    if s.len() != w.len() {
        return false;
    }
    let r = matches_at(s, w.as_slice(), 0);
    proof {
        assert(s@.subrange(0, s@.len() as int) =~= s@);
    }
    r
}

/// The name after `keyword` in `line`.
fn read_name_after(line: &[char], keyword: &str, stops: &[char]) -> (r: Option<String>)
    ensures
        crate::model::option_view(r) == name_after(line@, keyword@, stops@),
{
    let k = to_chars(keyword);
    proof {
        assert(line@.subrange(0, line@.len() as int) =~= line@);
    }
    match second_piece_span(line, 0, line.len(), k.as_slice()) {
        None => None,
        Some((a, b)) => {
            let end = until_any(line, a, b, stops);
            let (c, d) = trim_span(line, a, end);
            Some(from_chars(line, c, d))
        },
    }
}

/// The line without the white space at its start.
fn trimmed_start(line: &Vec<char>) -> (r: &[char])
    ensures
        r@ == trim_start_of(line@),
{
    proof {
        assert(line@.subrange(0, line@.len() as int) =~= line@);
    }
    let start = skip_space(line.as_slice(), 0, line.len());
    slice_subrange(line.as_slice(), start, line.len())
}

fn read_first_named(source: &str, keyword: &str, stops: &[char]) -> (r: Option<String>)
    ensures
        crate::model::option_view(r) == first_named(lines_of(source@), keyword@, stops@),
{
    let text = to_chars(source);
    let lines = split_lines(text.as_slice());
    let ghost all = chars_views(lines@);
    let mut i: usize = 0;
    proof {
        assert(all.skip(0) =~= all);
    }
    while i < lines.len()
        invariant
            i <= lines.len(),
            all == chars_views(lines@),
            all == lines_of(source@),
            first_named(all, keyword@, stops@) == first_named(
                all.skip(i as int),
                keyword@,
                stops@,
            ),
        decreases lines.len() - i,
    {
        proof {
            assert(all.skip(i as int)[0] == lines@[i as int]@);
            assert(all.skip(i as int).drop_first() =~= all.skip(i + 1));
        }
        if begins(trimmed_start(&lines[i]), keyword) {
            return read_name_after(lines[i].as_slice(), keyword, stops);
        }
        i += 1;
    }
    None
}

fn pick_evm_function(line: &[char]) -> (r: Option<String>)
    ensures
        crate::model::option_view(r) == evm_function(line@),
{
    if (holds(line, "public ") || holds(line, "external ")) && holds(line, "function ") {
        let stops = vec!['('];
        assert(stops@ =~= seq!['(']);
        read_name_after(line, "function ", stops.as_slice())
    } else {
        None
    }
}

fn pick_move_function(line: &[char]) -> (r: Option<String>)
    ensures
        crate::model::option_view(r) == move_function(line@),
{
    if begins(line, "public fun ") {
        let stops = vec!['('];
        assert(stops@ =~= seq!['(']);
        read_name_after(line, "public fun ", stops.as_slice())
    } else {
        None
    }
}

fn pick_move_resource(line: &[char]) -> (r: Option<String>)
    ensures
        crate::model::option_view(r) == move_resource(line@),
{
    if begins(line, "resource struct ") {
        read_name_after(line, "resource struct ", vec!['{', '(', '<'].as_slice())
    } else if begins(line, "struct ") {
        read_name_after(line, "struct ", vec!['{', '(', '<'].as_slice())
    } else {
        None
    }
}

/// Determine if a line is a state variable declaration.
pub fn is_state_variable_declaration(line: &str) -> (r: bool)
    ensures
        r == declares_state(line@),
{
    let chars = to_chars(line);
    declares_state_in(chars.as_slice())
}

fn declares_state_in(s: &[char]) -> (r: bool)
    ensures
        r == declares_state(s@),
{
    (begins(s, "uint") || begins(s, "int") || begins(s, "address") || begins(s, "bool") || begins(
        s,
        "bytes",
    ) || begins(s, "string") || begins(s, "mapping")) && !holds(s, "function")
}

fn declarator(w: &[char]) -> (r: bool)
    ensures
        r == is_declarator(w@),
{
    begins(w, "uint") || begins(w, "int") || is_word(w, "public") || is_word(w, "private")
        || is_word(w, "mapping") || is_word(w, "address") || is_word(w, "bool") || is_word(
        w,
        "bytes",
    ) || is_word(w, "string")
}

/// Extract variable name from declaration (e.g., "uint256 public
/// balance;" gives "balance").
pub fn extract_variable_name(line: &str) -> (r: Option<String>)
    ensures
        crate::model::option_view(r) == variable_name(line@),
{
    let chars = to_chars(line);
    variable_name_in(chars.as_slice())
}

fn variable_name_in(s: &[char]) -> (r: Option<String>)
    ensures
        crate::model::option_view(r) == variable_name(s@),
{
    let words = split_words(s);
    let ghost all = words_of(s@);
    let mut i: usize = 0;
    proof {
        assert(all.skip(0) =~= all);
    }
    while i < words.len()
        invariant
            i <= words.len(),
            all == words_of(s@),
            all == span_views(s@, words@),
            forall|k: int|
                0 <= k < words.len() ==> (#[trigger] words@[k]).0 <= words@[k].1 <= s.len(),
            first_plain_word(all) == first_plain_word(all.skip(i as int)),
        decreases words.len() - i,
    {
        let (a, b) = words[i];
        proof {
            assert(words@[i as int].0 == a);
            assert(all.skip(i as int)[0] == s@.subrange(a as int, b as int));
            assert(all.skip(i as int).drop_first() =~= all.skip(i + 1));
        }
        let word = slice_subrange(s, a, b);
        if !declarator(word) {
            let end = until_any(s, a, b, vec![';', '=', '(', '['].as_slice());
            let (c, d) = trim_span(s, a, end);
            if d == c {
                return None;
            }
            return Some(from_chars(s, c, d));
        }
        i += 1;
    }
    None
}

fn pick_evm_state_variable(line: &[char]) -> (r: Option<String>)
    ensures
        crate::model::option_view(r) == evm_state_variable(line@),
{
    if declares_state_in(line) {
        variable_name_in(line)
    } else {
        None
    }
}

/// What is gathered from the lines of a source.
#[derive(Debug, Clone, Copy, PartialEq, Eq, Structural)]
pub enum Gather {
    /// The public and external functions of a Solidity contract.
    EvmFunctions,
    /// The state variables of a Solidity contract.
    EvmStateVariables,
    /// The public functions of a Move module.
    MoveFunctions,
    /// The structs of a Move module.
    MoveResources,
}

/// What a line gives of the kind that is gathered.
pub open spec fn picker(what: Gather) -> spec_fn(Seq<char>) -> Option<Seq<char>> {
    match what {
        Gather::EvmFunctions => |l: Seq<char>| evm_function(l),
        Gather::EvmStateVariables => |l: Seq<char>| evm_state_variable(l),
        Gather::MoveFunctions => |l: Seq<char>| move_function(l),
        Gather::MoveResources => |l: Seq<char>| move_resource(l),
    }
}

fn gather(source: &str, what: Gather) -> (names: Vec<String>)
    ensures
        strings_view(names@) == gathered(lines_of(source@), picker(what), lines_of(source@).len()),
{
    let text = to_chars(source);
    let lines = split_lines(text.as_slice());
    let ghost all = chars_views(lines@);
    let mut names: Vec<String> = Vec::new();
    let mut i: usize = 0;
    proof {
        assert(strings_view(names@) =~= gathered(all, picker(what), 0));
    }
    while i < lines.len()
        invariant
            i <= lines.len(),
            all == chars_views(lines@),
            all == lines_of(source@),
            strings_view(names@) == gathered(all, picker(what), i as nat),
        decreases lines.len() - i,
    {
        let line = trimmed_start(&lines[i]);
        proof {
            assert(all[i as int] == lines@[i as int]@);
        }
        let found = match what {
            Gather::EvmFunctions => pick_evm_function(line),
            Gather::EvmStateVariables => pick_evm_state_variable(line),
            Gather::MoveFunctions => pick_move_function(line),
            Gather::MoveResources => pick_move_resource(line),
        };
        match found {
            Some(name) => {
                proof {
                    assert(strings_view(names@.push(name)) =~= strings_view(names@).push(name@));
                }
                names.push(name);
            },
            None => {},
        }
        i += 1;
    }
    names
}

/// A name, or the default where there is none.
pub open spec fn name_or(name: Option<Seq<char>>, default: Seq<char>) -> Seq<char> {
    match name {
        Some(n) => n,
        None => default,
    }
}

/// The model of a program that has the given functions, each an entry
/// point that is not pure, and no state.
pub open spec fn model_of(
    program: ProgramModel,
    name: Seq<char>,
    chain: Seq<char>,
    source_path: Seq<char>,
    functions: Seq<Seq<char>>,
) -> bool {
    &&& program.name@ == name
    &&& program.chain@ == chain
    &&& program.source_path@ == source_path
    &&& program.state_vars@ == Map::<Seq<char>, StateVar>::empty()
    &&& program.functions@.dom() == functions.to_set()
    &&& program.mutation_graph@.dom() == functions.to_set()
    &&& forall|f: Seq<char>| #[trigger]
        functions.contains(f) ==> {
            let model = program.functions@[f];
            &&& model.name@ == f
            &&& model.parameters@.len() == 0
            &&& model.return_type is None
            &&& model.mutates@ == Set::<Seq<char>>::empty()
            &&& model.reads@ == Set::<Seq<char>>::empty()
            &&& model.is_entry_point
            &&& !model.is_pure
            &&& program.mutation_graph@[f]@ == Set::<Seq<char>>::empty()
        }
}

fn build_model(name: String, chain: &str, source_path: &str, functions: Vec<String>) -> (program:
    ProgramModel)
    ensures
        model_of(program, name@, chain@, source_path@, strings_view(functions@)),
{
    let mut program = ProgramModel::new(
        name,
        String::from_str(chain),
        String::from_str(source_path),
    );
    let ghost names = strings_view(functions@);
    let mut i: usize = 0;
    proof {
        assert(names.take(0).to_set() =~= Set::<Seq<char>>::empty());
        assert(program.functions@.dom() =~= names.take(0).to_set());
        assert(program.mutation_graph@.dom() =~= names.take(0).to_set());
    }
    while i < functions.len()
        invariant
            i <= functions.len(),
            names == strings_view(functions@),
            model_of(program, name@, chain@, source_path@, names.take(i as int)),
        decreases functions.len() - i,
    {
        let func = FunctionModel {
            name: functions[i].clone(),
            parameters: Vec::new(),
            return_type: None,
            mutates: OrderedSet::new(),
            reads: OrderedSet::new(),
            is_entry_point: true,
            is_pure: false,
        };
        let ghost before = program;
        program.add_function(func);
        proof {
            let prev = names.take(i as int);
            let next = names.take(i + 1);
            assert(next =~= prev.push(names[i as int]));
            assert(names[i as int] == func.name@);
            assert forall|f: Seq<char>| next.contains(f) <==> (f == func.name@ || prev.contains(
                f,
            )) by {
                if prev.contains(f) {
                    let k = prev.index_of(f);
                    assert(next[k] == f);
                }
                if f == func.name@ {
                    assert(next[i as int] == f);
                }
            }
            assert(next.to_set() =~= prev.to_set().insert(func.name@));
            assert forall|f: Seq<char>| #[trigger] next.contains(f) implies {
                let model = program.functions@[f];
                &&& model.name@ == f
                &&& model.parameters@.len() == 0
                &&& model.return_type is None
                &&& model.mutates@ == Set::<Seq<char>>::empty()
                &&& model.reads@ == Set::<Seq<char>>::empty()
                &&& model.is_entry_point
                &&& !model.is_pure
                &&& program.mutation_graph@[f]@ == Set::<Seq<char>>::empty()
            } by {
                if f != func.name@ {
                    assert(prev.contains(f));
                    assert(before.functions@.dom().contains(f));
                    assert(before.mutation_graph@.dom().contains(f));
                }
            }
        }
        i += 1;
    }
    proof {
        assert(names.take(functions.len() as int) =~= names);
    }
    program
}

/// Analyzer for EVM (Solidity) smart contracts.
pub struct EvmAnalyzer;

impl EvmAnalyzer {
    /// Extract contract name from Solidity source code.
    pub fn extract_contract_name(source: &str) -> (r: Option<String>)
        ensures
            crate::model::option_view(r) == first_named(
                lines_of(source@),
                "contract "@,
                seq!['{', '(', ';'],
            ),
    {
        read_first_named(source, "contract ", vec!['{', '(', ';'].as_slice())
    }

    /// Extract public and external function names from Solidity source
    /// code.
    pub fn extract_public_functions(source: &str) -> (r: Vec<String>)
        ensures
            strings_view(r@) == gathered(
                lines_of(source@),
                picker(Gather::EvmFunctions),
                lines_of(source@).len(),
            ),
    {
        gather(source, Gather::EvmFunctions)
    }

    /// Extract state variable names from Solidity source code.
    pub fn extract_state_variables(source: &str) -> (r: Vec<String>)
        ensures
            strings_view(r@) == gathered(
                lines_of(source@),
                picker(Gather::EvmStateVariables),
                lines_of(source@).len(),
            ),
    {
        gather(source, Gather::EvmStateVariables)
    }
}

impl ChainAnalyzer for EvmAnalyzer {
    fn analyze(&self, source: &str, source_path: &str) -> (r: Result<ProgramModel, InvarError>)
        ensures
            r matches Ok(program) && model_of(
                program,
                name_or(
                    first_named(lines_of(source@), "contract "@, seq!['{', '(', ';']),
                    "UnknownContract"@,
                ),
                "evm"@,
                source_path@,
                gathered(lines_of(source@), picker(Gather::EvmFunctions), lines_of(source@).len()),
            ),
    {
        let name = match Self::extract_contract_name(source) {
            Some(n) => n,
            None => String::from_str("UnknownContract"),
        };
        let functions = Self::extract_public_functions(source);
        Ok(build_model(name, "evm", source_path, functions))
    }

    fn chain(&self) -> (s: &str)
        ensures
            s@ == "evm"@,
    {
        "evm"
    }
}

/// Analyzer for Move programs.
pub struct MoveAnalyzer;

impl MoveAnalyzer {
    /// Extract module name from Move source code.
    pub fn extract_module_name(source: &str) -> (r: Option<String>)
        ensures
            crate::model::option_view(r) == first_named(
                lines_of(source@),
                "module "@,
                seq![':', '{', ';'],
            ),
    {
        read_first_named(source, "module ", vec![':', '{', ';'].as_slice())
    }

    /// Extract public function names from Move source code.
    pub fn extract_public_functions(source: &str) -> (r: Vec<String>)
        ensures
            strings_view(r@) == gathered(
                lines_of(source@),
                picker(Gather::MoveFunctions),
                lines_of(source@).len(),
            ),
    {
        gather(source, Gather::MoveFunctions)
    }

    /// Extract resource type names from Move source code.
    pub fn extract_resource_types(source: &str) -> (r: Vec<String>)
        ensures
            strings_view(r@) == gathered(
                lines_of(source@),
                picker(Gather::MoveResources),
                lines_of(source@).len(),
            ),
    {
        gather(source, Gather::MoveResources)
    }
}

impl ChainAnalyzer for MoveAnalyzer {
    fn analyze(&self, source: &str, source_path: &str) -> (r: Result<ProgramModel, InvarError>)
        ensures
            r matches Ok(program) && model_of(
                program,
                name_or(
                    first_named(lines_of(source@), "module "@, seq![':', '{', ';']),
                    "move_module"@,
                ),
                "move"@,
                source_path@,
                gathered(lines_of(source@), picker(Gather::MoveFunctions), lines_of(source@).len()),
            ),
    {
        let name = match Self::extract_module_name(source) {
            Some(n) => n,
            None => String::from_str("move_module"),
        };
        let functions = Self::extract_public_functions(source);
        Ok(build_model(name, "move", source_path, functions))
    }

    fn chain(&self) -> (s: &str)
        ensures
            s@ == "move"@,
    {
        "move"
    }
}

/// A function of a Solana program, as far as the analyzer reads it.
#[derive(Debug, Clone)]
pub struct SolanaFunction {
    /// The function's name.
    pub name: String,
    /// The number of its parameters.
    pub parameters: usize,
    /// Whether it is marked as the program's entry point.
    pub is_entry: bool,
}

/// Whether `index` is the place of the last function named `name`.
pub open spec fn is_last_named(functions: Seq<SolanaFunction>, name: Seq<char>, index: int) -> bool {
    &&& 0 <= index < functions.len()
    &&& functions[index].name@ == name
    &&& forall|j: int| index < j < functions.len() ==> (#[trigger] functions[j]).name@ != name
}

/// The model of a Solana program with the given structs as its state and
/// the given functions. Of two functions with one name the later counts.
pub open spec fn solana_model_of(
    program: ProgramModel,
    source_path: Seq<char>,
    structs: Seq<Seq<char>>,
    functions: Seq<SolanaFunction>,
) -> bool {
    &&& program.name@ == "solana_program"@
    &&& program.chain@ == "solana"@
    &&& program.source_path@ == source_path
    &&& program.state_vars@.dom() == structs.to_set()
    &&& forall|s: Seq<char>| #[trigger]
        structs.contains(s) ==> {
            let var = program.state_vars@[s];
            &&& var.name@ == s
            &&& var.declared_type@ == "struct"@
            &&& !var.is_mutable
            &&& var.visibility is None
        }
    &&& forall|f: Seq<char>|
        program.functions@.contains_key(f) <==> exists|i: int| is_last_named(functions, f, i)
    &&& program.mutation_graph@.dom() == program.functions@.dom()
    &&& forall|f: Seq<char>, i: int| #[trigger]
        is_last_named(functions, f, i) ==> {
            let model = program.functions@[f];
            &&& model.name@ == f
            &&& model.parameters@.len() == functions[i].parameters
            &&& forall|k: int|
                0 <= k < model.parameters@.len() ==> (#[trigger] model.parameters@[k])@ == "param"@
            &&& model.return_type is None
            &&& model.mutates@ == Set::<Seq<char>>::empty()
            &&& model.reads@ == Set::<Seq<char>>::empty()
            &&& model.is_entry_point == functions[i].is_entry
            &&& !model.is_pure
            &&& program.mutation_graph@[f]@ == Set::<Seq<char>>::empty()
        }
}

/// Analyzer for Solana Rust programs.
pub struct SolanaAnalyzer;

impl SolanaAnalyzer {
    /// The model of a program whose source declares the given structs and
    /// functions, in the order of the source.
    pub fn build_model(source_path: &str, structs: &[String], functions: &[SolanaFunction]) -> (program:
        ProgramModel)
        ensures
            solana_model_of(program, source_path@, strings_view(structs@), functions@),
    {
        let mut program = ProgramModel::new(
            String::from_str("solana_program"),
            String::from_str("solana"),
            String::from_str(source_path),
        );
        let ghost names = strings_view(structs@);
        let mut i: usize = 0;
        proof {
            assert(program.state_vars@.dom() =~= names.take(0).to_set());
        }
        while i < structs.len()
            invariant
                i <= structs.len(),
                names == strings_view(structs@),
                program.name@ == "solana_program"@,
                program.chain@ == "solana"@,
                program.source_path@ == source_path@,
                program.functions@ == Map::<Seq<char>, FunctionModel>::empty(),
                program.mutation_graph@ == Map::<Seq<char>, OrderedSet>::empty(),
                program.state_vars@.dom() == names.take(i as int).to_set(),
                forall|s: Seq<char>| #[trigger]
                    names.take(i as int).contains(s) ==> {
                        let var = program.state_vars@[s];
                        &&& var.name@ == s
                        &&& var.declared_type@ == "struct"@
                        &&& !var.is_mutable
                        &&& var.visibility is None
                    },
            decreases structs.len() - i,
        {
            let var = StateVar {
                name: structs[i].clone(),
                declared_type: String::from_str("struct"),
                is_mutable: false,
                visibility: None,
            };
            let ghost before = program;
            program.add_state_var(var);
            proof {
                let prev = names.take(i as int);
                let next = names.take(i + 1);
                assert(next =~= prev.push(names[i as int]));
                assert(names[i as int] == var.name@);
                assert forall|s: Seq<char>| next.contains(s) <==> (s == var.name@ || prev.contains(
                    s,
                )) by {
                    if prev.contains(s) {
                        let k = prev.index_of(s);
                        assert(next[k] == s);
                    }
                    if s == var.name@ {
                        assert(next[i as int] == s);
                    }
                }
                assert(next.to_set() =~= prev.to_set().insert(var.name@));
                assert forall|s: Seq<char>| #[trigger] next.contains(s) implies {
                    let v = program.state_vars@[s];
                    &&& v.name@ == s
                    &&& v.declared_type@ == "struct"@
                    &&& !v.is_mutable
                    &&& v.visibility is None
                } by {
                    if s != var.name@ {
                        assert(prev.contains(s));
                    }
                }
            }
            i += 1;
        }
        proof {
            assert(names.take(structs.len() as int) =~= names);
        }
        let mut k: usize = 0;
        proof {
            assert(program.mutation_graph@.dom() =~= program.functions@.dom());
        }
        while k < functions.len()
            invariant
                k <= functions.len(),
                names == strings_view(structs@),
                solana_model_of(program, source_path@, names, functions@.take(k as int)),
            decreases functions.len() - k,
        {
            let mut parameters: Vec<String> = Vec::new();
            let mut p: usize = 0;
            while p < functions[k].parameters
                invariant
                    k < functions.len(),
                    p <= functions[k as int].parameters,
                    parameters.len() == p,
                    forall|q: int| 0 <= q < p ==> (#[trigger] parameters@[q])@ == "param"@,
                decreases functions[k as int].parameters - p,
            {
                parameters.push(String::from_str("param"));
                p += 1;
            }
            let func = FunctionModel {
                name: functions[k].name.clone(),
                parameters,
                return_type: None,
                mutates: OrderedSet::new(),
                reads: OrderedSet::new(),
                is_entry_point: functions[k].is_entry,
                is_pure: false,
            };
            let ghost before = program;
            program.add_function(func);
            proof {
                let prev = functions@.take(k as int);
                let next = functions@.take(k + 1);
                assert(next =~= prev.push(functions@[k as int]));
                let name = func.name@;
                assert(is_last_named(next, name, k as int));
                assert forall|f: Seq<char>, i: int| f != name implies (is_last_named(next, f, i)
                    <==> is_last_named(prev, f, i)) by {
                    if is_last_named(next, f, i) {
                        assert(i != k);
                        assert(prev[i] == next[i]);
                        assert forall|j: int| i < j < prev.len() implies (#[trigger] prev[j]).name@
                            != f by {
                            assert(next[j] == prev[j]);
                        }
                    }
                    if is_last_named(prev, f, i) {
                        assert(prev[i] == next[i]);
                        assert forall|j: int| i < j < next.len() implies (#[trigger] next[j]).name@
                            != f by {
                            if j < k {
                                assert(next[j] == prev[j]);
                            }
                        }
                    }
                }
                assert forall|i: int| is_last_named(next, name, i) implies i == k by {
                    if i < k {
                        assert(next[k as int].name@ == name);
                    }
                }
                assert forall|f: Seq<char>| program.functions@.contains_key(f) <==> exists|i: int|
                    is_last_named(next, f, i) by {
                    if f != name {
                        if before.functions@.contains_key(f) {
                            let i = choose|i: int| is_last_named(prev, f, i);
                            assert(is_last_named(next, f, i));
                        }
                        if exists|i: int| is_last_named(next, f, i) {
                            let i = choose|i: int| is_last_named(next, f, i);
                            assert(is_last_named(prev, f, i));
                        }
                    }
                }
                assert(program.mutation_graph@.dom() =~= program.functions@.dom());
                assert forall|f: Seq<char>, i: int| #[trigger]
                    is_last_named(next, f, i) implies {
                    let model = program.functions@[f];
                    &&& model.name@ == f
                    &&& model.parameters@.len() == next[i].parameters
                    &&& forall|q: int|
                        0 <= q < model.parameters@.len() ==> (#[trigger] model.parameters@[q])@
                            == "param"@
                    &&& model.return_type is None
                    &&& model.mutates@ == Set::<Seq<char>>::empty()
                    &&& model.reads@ == Set::<Seq<char>>::empty()
                    &&& model.is_entry_point == next[i].is_entry
                    &&& !model.is_pure
                    &&& program.mutation_graph@[f]@ == Set::<Seq<char>>::empty()
                } by {
                    if f != name {
                        assert(is_last_named(prev, f, i));
                        assert(prev[i] == next[i]);
                        assert(before.functions@.contains_key(f));
                        assert(before.mutation_graph@.dom().contains(f));
                    }
                }
            }
            k += 1;
        }
        proof {
            assert(functions@.take(functions.len() as int) =~= functions@);
        }
        program
    }

    /// Chain identifier.
    pub fn chain(&self) -> (s: &str)
        ensures
            s@ == "solana"@,
    {
        "solana"
    }
}

} // verus!
