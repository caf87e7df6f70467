//! A process and its arguments, as a wrapper alias runs it.

use vstd::prelude::*;
use vstd::string::*;
use crate::variable::strings_view;

verus! {

/// The arguments, each after a space and in double quotes, as they are printed.
pub open spec fn quoted_arguments(args: Seq<Seq<char>>) -> Seq<char>
    decreases args.len(),
{
    if args.len() == 0 {
        Seq::empty()
    } else {
        " \""@ + args[0] + "\""@ + quoted_arguments(args.drop_first())
    }
}

/// A process and the arguments to run it with.
pub struct Command {
    process: String,
    arguments: Vec<String>,
}

impl Command {
    pub closed spec fn process(&self) -> Seq<char> {
        self.process@
    }

    pub closed spec fn arguments(&self) -> Seq<String> {
        self.arguments@
    }

    pub fn new(process: String, arguments: Vec<String>) -> (c: Command)
        ensures
            c.process() == process@,
            c.arguments() == arguments@,
    {
        Command { process, arguments }
    }

    /// The process, then each argument after a space, in double quotes.
    pub fn to_string(&self) -> (s: String)
        ensures
            s@ == self.process() + quoted_arguments(strings_view(self.arguments())),
    {
        let ghost args = strings_view(self.arguments@);
        let mut out = self.process.clone();
        let mut i: usize = 0;
        assert(args.skip(0) =~= args);
        while i < self.arguments.len()
            invariant
                args == strings_view(self.arguments@),
                i <= self.arguments.len(),
                self.process@ + quoted_arguments(args) == out@ + quoted_arguments(args.skip(i as int)),
            decreases self.arguments.len() - i,
        {
            let ghost before = out@;
            assert(args.skip(i as int).drop_first() =~= args.skip(i + 1));
            out.append(" \"");
            out.append(self.arguments[i].as_str());
            out.append("\"");
            assert(before + (" \""@ + args[i as int] + "\""@ + quoted_arguments(args.skip(i + 1)))
                =~= out@ + quoted_arguments(args.skip(i + 1)));
            i = i + 1;
        }
        assert(args.skip(i as int) =~= Seq::<Seq<char>>::empty());
        assert(out@ + Seq::<char>::empty() =~= out@);
        out
    }
}

} // verus!
