use vstd::prelude::*;

use crate::text::{chars_of, has_prefix, push_str, string_views};

verus! {

/// The arguments handed to the system `ssh` command to reach a machine.
#[derive(Debug, Clone)]
pub struct SshTarget {
    pub args: Vec<String>,
}

/// A connection to run remote commands with: the ssh program and target.
#[derive(Debug, Clone)]
pub struct SshSession {
    pub command: String,
    pub target: SshTarget,
}

/// `words` joined by single spaces.
pub open spec fn space_joined(words: Seq<Seq<char>>) -> Seq<char>
    decreases words.len(),
{
    if words.len() == 0 {
        Seq::empty()
    } else if words.len() == 1 {
        words[0]
    } else {
        space_joined(words.drop_last()) + " "@ + words.last()
    }
}

/// The letters of the ssh options that take their value as the next
/// argument: `-p -P -i -l -F -o -W -D -L -R -J -c -m -Q -w -b -e -E`.
pub open spec fn is_value_flag_letter(c: char) -> bool {
    ||| c == 'p'
    ||| c == 'P'
    ||| c == 'i'
    ||| c == 'l'
    ||| c == 'F'
    ||| c == 'o'
    ||| c == 'W'
    ||| c == 'D'
    ||| c == 'L'
    ||| c == 'R'
    ||| c == 'J'
    ||| c == 'c'
    ||| c == 'm'
    ||| c == 'Q'
    ||| c == 'w'
    ||| c == 'b'
    ||| c == 'e'
    ||| c == 'E'
}

/// Whether `arg` is exactly one of the value-taking options, written alone
/// (so that its value is the next argument).
pub open spec fn is_value_flag(arg: Seq<char>) -> bool {
    arg.len() == 2 && arg[0] == '-' && is_value_flag_letter(arg[1])
}

/// The first argument that is not an option or an option's value.
pub open spec fn host_arg(args: Seq<Seq<char>>) -> Option<Seq<char>>
    decreases args.len(),
{
    if args.len() == 0 {
        None
    } else if has_prefix(args[0], "-"@) {
        if is_value_flag(args[0]) {
            if args.len() >= 2 {
                host_arg(args.skip(2))
            } else {
                None
            }
        } else {
            host_arg(args.drop_first())
        }
    } else {
        Some(args[0])
    }
}

/// The text of each argument.
pub open spec fn arg_views(args: Seq<String>) -> Seq<Seq<char>> {
    args.map_values(|a: String| a@)
}

fn value_flag_letter(c: char) -> (r: bool)
    ensures
        r == is_value_flag_letter(c),
{
    c == 'p' || c == 'P' || c == 'i' || c == 'l' || c == 'F' || c == 'o' || c == 'W' || c == 'D'
        || c == 'L' || c == 'R' || c == 'J' || c == 'c' || c == 'm' || c == 'Q' || c == 'w' || c
        == 'b' || c == 'e' || c == 'E'
}

impl SshTarget {
    /// The arguments joined by spaces.
    pub fn display(&self) -> (r: String)
        ensures
            r@ == space_joined(arg_views(self.args@)),
    {
        let ghost words = arg_views(self.args@);
        let mut out = String::new();
        let n = self.args.len();
        if n == 0 {
            return out;
        }
        push_str(&mut out, self.args[0].as_str());
        assert(words.take(1).len() == 1);
        for i in 1..n
            invariant
                n == self.args@.len(),
                words == arg_views(self.args@),
                out@ == space_joined(words.take(i as int)),
        {
            assert(words.take(i + 1).drop_last() == words.take(i as int));
            push_str(&mut out, " ");
            push_str(&mut out, self.args[i].as_str());
        }
        assert(words.take(n as int) == words);
        out
    }

    /// Best-effort extraction of the host part from ssh args: the first
    /// argument that is neither an option nor an option's separate value;
    /// all arguments joined when there is none.
    pub fn host(&self) -> (r: String)
        ensures
            r@ == match host_arg(arg_views(self.args@)) {
                Some(h) => h,
                None => space_joined(arg_views(self.args@)),
            },
    {
        let ghost all = arg_views(self.args@);
        let n = self.args.len();
        let mut i: usize = 0;
        assert(all.skip(0) == all);
        while i < n
            invariant
                n == self.args@.len(),
                all == arg_views(self.args@),
                i <= n,
                host_arg(all) == host_arg(all.skip(i as int)),
            decreases n - i,
        {
            let a = chars_of(self.args[i].as_str());
            let ghost rest = all.skip(i as int);
            assert(rest[0] == a@);
            if a.len() > 0 && a[0] == '-' {
                assert(has_prefix(a@, "-"@)) by {
                    reveal_strlit("-");
                    assert(a@.take(1) =~= "-"@);
                }
                if a.len() == 2 && value_flag_letter(a[1]) {
                    if i + 1 < n {
                        assert(rest.skip(2) == all.skip(i + 2));
                        i = i + 2;
                    } else {
                        i = n;
                        assert(all.skip(n as int).len() == 0);
                        return self.display();
                    }
                } else {
                    assert(rest.drop_first() == all.skip(i + 1));
                    i = i + 1;
                }
            } else {
                assert(!has_prefix(a@, "-"@)) by {
                    reveal_strlit("-");
                    if a@.len() > 0 {
                        assert(a@.take(1)[0] == a@[0]);
                    }
                }
                return self.args[i].clone();
            }
        }
        assert(all.skip(n as int).len() == 0);
        self.display()
    }
}

/// The arguments given to the ssh program to run `remote_command` on the
/// target without prompting: batch mode, new host keys accepted, the
/// target's arguments, then `--` and the command.
pub open spec fn remote_arguments(target_args: Seq<Seq<char>>, remote_command: Seq<char>) -> Seq<
    Seq<char>,
> {
    seq!["-o"@, "BatchMode=yes"@, "-o"@, "StrictHostKeyChecking=accept-new"@] + target_args + seq![
        "--"@,
        remote_command,
    ]
}

impl SshSession {
    /// The arguments for the ssh program (see [`remote_arguments`]).
    pub fn remote_args(&self, remote_command: &str) -> (r: Vec<String>)
        ensures
            string_views(r@) == remote_arguments(arg_views(self.target.args@), remote_command@),
    {
        let mut out: Vec<String> = Vec::new();
        out.push(String::from_str("-o"));
        out.push(String::from_str("BatchMode=yes"));
        out.push(String::from_str("-o"));
        out.push(String::from_str("StrictHostKeyChecking=accept-new"));
        let ghost head = string_views(out@);
        let n = self.target.args.len();
        for i in 0..n
            invariant
                n == self.target.args@.len(),
                string_views(out@) == head + arg_views(self.target.args@).take(i as int),
        {
            let ghost before = out@;
            out.push(self.target.args[i].clone());
            assert(string_views(out@) =~= string_views(before).push(self.target.args@[i as int]@));
            assert(arg_views(self.target.args@).take(i + 1) =~= arg_views(self.target.args@).take(
                i as int,
            ).push(self.target.args@[i as int]@));
        }
        assert(arg_views(self.target.args@).take(n as int) == arg_views(self.target.args@));
        let ghost mid = out@;
        out.push(String::from_str("--"));
        out.push(String::from_str(remote_command));
        assert(string_views(out@) =~= string_views(mid) + seq!["--"@, remote_command@]);
        assert(head =~= seq!["-o"@, "BatchMode=yes"@, "-o"@, "StrictHostKeyChecking=accept-new"@]);
        out
    }

    pub fn new(command: String, target: SshTarget) -> (r: Self)
        ensures
            r.command == command,
            r.target == target,
    {
        SshSession { command, target }
    }
}

} // verus!
