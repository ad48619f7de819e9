//! What the command line asks for.
use vstd::prelude::*;
use vstd::string::StringExecFns;

verus! {

/// What the first argument asks for.
#[derive(Clone, Copy, Debug, PartialEq, Eq, Structural)]
pub enum Command {
    /// List the packages.
    List,
    /// Run the configuration file that the argument names.
    Run,
}

/// Whether the first argument asks for the list of packages.
pub open spec fn asks_for_list(arg: Option<String>) -> bool {
    match arg {
        None => true,
        Some(text) => text@ == "-l"@ || text@ == "--list"@,
    }
}

/// Tells what the first argument asks for.
///
/// ```text
/// eevee-eval run.yaml
/// eevee-eval -l
/// ```
pub fn cli_run(arg: &Option<String>) -> (command: Command)
    ensures
        command == (if asks_for_list(*arg) {
            Command::List
        } else {
            Command::Run
        }),
{
    match arg {
        None => Command::List,
        Some(text) => if *text == String::from_str("-l") || *text == String::from_str("--list") {
            Command::List
        } else {
            Command::Run
        },
    }
}

/// Finds the first package with the name `package`.
pub fn find_package(names: &[String], package: &String) -> (found: Option<usize>)
    ensures
        found matches Some(i) ==> {
            &&& i < names@.len()
            &&& names@[i as int]@ == package@
            &&& forall|j: int| 0 <= j < i ==> #[trigger] names@[j]@ != package@
        },
        found is None ==> forall|j: int|
            0 <= j < names@.len() ==> #[trigger] names@[j]@ != package@,
{
    for i in 0..names.len()
        invariant
            forall|j: int| 0 <= j < i ==> #[trigger] names@[j]@ != package@,
    {
        if names[i] == *package {
            return Some(i);
        }
    }
    None
}

/// One line for each of the first `n` names.
pub open spec fn lines(names: Seq<String>, n: nat) -> Seq<char>
    decreases n,
{
    if n == 0 {
        Seq::empty()
    } else {
        lines(names, (n - 1) as nat) + names[n - 1]@.push('\n')
    }
}

/// Lists the packages, one to a line.
pub fn list_packages(names: &[String]) -> (out: String)
    ensures
        out@ == lines(names@, names@.len()),
{
    let mut out = String::new();
    for i in 0..names.len()
        invariant
            out@ == lines(names@, i as nat),
    {
        let ghost before = out@;
        out.append(names[i].as_str());
        out.push('\n');
        assert(out@ =~= before + names@[i as int]@.push('\n'));
    }
    out
}

/// Words the complaint about a package that does not exist.
pub fn unknown_package(package: &str) -> (out: String)
    ensures
        out@ == "unknown package '"@ + package@ + "'. Use -l to list."@,
{
    let mut out = String::from_str("unknown package '");
    out.append(package);
    out.append("'. Use -l to list.");
    out
}

/// The packages are listed where there is no argument or one of two flags, and nowhere else.
pub proof fn only_flags_ask_for_the_list(arg: Option<String>)
    ensures
        asks_for_list(arg) <==> (arg is None || arg->0@ == seq!['-', 'l'] || arg->0@ == seq![
            '-',
            '-',
            'l',
            'i',
            's',
            't',
        ]),
{
    reveal_strlit("-l");
    reveal_strlit("--list");
    assert("-l"@ =~= seq!['-', 'l']);
    assert("--list"@ =~= seq!['-', '-', 'l', 'i', 's', 't']);
}

/// A list grows by one name and one line break at a time.
pub proof fn lists_grow_line_by_line(names: Seq<String>, n: nat)
    requires
        n < names.len(),
    ensures
        lines(names, 0) == Seq::<char>::empty(),
        lines(names, n + 1) == lines(names, n) + names[n as int]@ + seq!['\n'],
{
    assert(lines(names, n + 1) =~= lines(names, n) + names[n as int]@ + seq!['\n']);
}

} // verus!
