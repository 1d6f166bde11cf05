//! The command line client: its arguments are the words of one command.

use vstd::prelude::*;

verus! {

/// Arguments with a space between each and the next.
pub open spec fn spaced(args: Seq<String>) -> Seq<char>
    decreases args.len(),
{
    if args.len() == 0 {
        Seq::empty()
    } else if args.len() == 1 {
        args[0]@
    } else {
        spaced(args.drop_last()) + " "@ + args.last()@
    }
}

/// The line to send for the arguments; nothing where there are none.
pub fn command_line(args: &Vec<String>) -> (r: Option<String>)
    ensures
        r is Some <==> args@.len() > 0,
        r matches Some(line) ==> line@ == spaced(args@) + "\n"@,
{
    if args.len() == 0 {
        return None;
    }
    let mut line = args[0].clone();
    let mut i: usize = 1;
    assert(args@.take(1)[0] == args@[0]);
    while i < args.len()
        invariant
            1 <= i <= args@.len(),
            line@ == spaced(args@.take(i as int)),
        decreases args.len() - i,
    {
        line.append(" ");
        line.append(args[i].as_str());
        i += 1;
        assert(args@.take(i as int).drop_last() =~= args@.take(i - 1));
        assert(args@.take(i as int).last() == args@[i - 1]);
    }
    assert(args@.take(i as int) =~= args@);
    Some(line.concat("\n"))
}

/// The arguments stand behind each other in their order, with one space between two of them.
pub proof fn law_arguments_are_spaced(args: Seq<String>, arg: String)
    ensures
        spaced(seq![arg]) == arg@,
        args.len() > 0 ==> spaced(args.push(arg)) == spaced(args) + seq![' '] + arg@,
{
    reveal_strlit(" ");
    assert(" "@ =~= seq![' ']);
    assert(args.push(arg).drop_last() =~= args);
}

} // verus!
