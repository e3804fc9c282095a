//! The shape of the command line.

use vstd::prelude::*;
use vstd::string::*;

use crate::text;
use crate::text::same_text;

verus! {

/// What the first argument may be for the command line to stand as it is: a
/// subcommand, or a flag of the program as a whole.
pub open spec fn is_leading(arg: Seq<char>) -> bool {
    ||| arg == "flatten"@
    ||| arg == "refish"@
    ||| arg == "tunnel"@
    ||| arg == "animate"@
    ||| arg == "help"@
    ||| arg == "-h"@
    ||| arg == "--help"@
    ||| arg == "-V"@
    ||| arg == "--version"@
}

/// Whether the command line can start with `arg`.
pub fn leads(arg: &str) -> (r: bool)
    ensures
        r == is_leading(arg@),
{
    same_text(arg, "flatten") || same_text(arg, "refish") || same_text(arg, "tunnel") || same_text(
        arg,
        "animate",
    ) || same_text(arg, "help") || same_text(arg, "-h") || same_text(arg, "--help") || same_text(
        arg,
        "-V",
    ) || same_text(arg, "--version")
}

/// A command line with its subcommand: `flatten` is put behind the program's
/// name where no other stands there. The program's name alone is left as it is.
pub open spec fn completed(argv: Seq<Seq<char>>) -> Seq<Seq<char>> {
    if argv.len() > 1 && !is_leading(argv[1]) {
        argv.insert(1, "flatten"@)
    } else {
        argv
    }
}

/// Inserts the default subcommand where the command line names none.
pub fn with_default_subcommand(argv: Vec<String>) -> (r: Vec<String>)
    ensures
        text::texts(r@) == completed(text::texts(argv@)),
{
    let mut r = argv;
    if r.len() > 1 && !leads(r[1].as_str()) {
        r.insert(1, "flatten".to_owned());
    }
    assert(text::texts(r@) =~= completed(text::texts(argv@)));
    r
}

/// A command line without a subcommand means what it means with `flatten`.
pub proof fn law_bare_means_flatten(argv: Seq<Seq<char>>)
    requires
        argv.len() > 1,
        !is_leading(argv[1]),
    ensures
        completed(argv) == completed(argv.insert(1, "flatten"@)),
{
    assert(argv.insert(1, "flatten"@)[1] == "flatten"@);
}

/// Completing a command line twice changes nothing more.
pub proof fn law_completing_is_idempotent(argv: Seq<Seq<char>>)
    ensures
        completed(completed(argv)) == completed(argv),
{
}

/// No argument is lost: what is put in can be taken out again.
pub proof fn law_arguments_are_kept(argv: Seq<Seq<char>>)
    ensures
        completed(argv) == argv || completed(argv).remove(1) == argv,
{
    if argv.len() > 1 && !is_leading(argv[1]) {
        assert(completed(argv).remove(1) =~= argv);
    }
}

/// Any first argument but one of nine words is left to `flatten`, which is put
/// right behind the program's name; behind it everything stands as it stood.
pub proof fn law_other_words_are_left_to_flatten(argv: Seq<Seq<char>>)
    requires
        argv.len() > 1,
    ensures
        ({
            let first = argv[1];
            let leads = first == "flatten"@ || first == "refish"@ || first == "tunnel"@ || first
                == "animate"@ || first == "help"@ || first == "-h"@ || first == "--help"@ || first
                == "-V"@ || first == "--version"@;
            &&& leads ==> completed(argv) == argv
            &&& !leads ==> completed(argv).len() == argv.len() + 1 && completed(argv)[0] == argv[0]
                && completed(argv)[1] == "flatten"@ && completed(argv).skip(2) == argv.skip(1)
        }),
{
    if !is_leading(argv[1]) {
        assert(completed(argv).skip(2) =~= argv.skip(1));
    }
}

/// A program's name alone is left as it is.
pub proof fn law_name_alone_is_left(argv: Seq<Seq<char>>)
    requires
        argv.len() <= 1,
    ensures
        completed(argv) == argv,
{
}

} // verus!
