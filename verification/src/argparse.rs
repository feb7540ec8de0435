//! A thin option-parsing helper.
//!
//! It recognises only the help flags: [`ArgumentParser::parse`] hands
//! back the help text when `-h` or `--help` occurs among the arguments,
//! and [`ArgumentParser::help`] builds that text from the registered
//! parameters. Printing is the caller's business.

use vstd::prelude::*;

verus! {

/// What a string holds after upper-casing. Relied on through the
/// wrapper around `str::to_uppercase` below; the result depends on the
/// characters alone.
pub uninterp spec fn upper_of(s: Seq<char>) -> Seq<char>;

/// Relies on `str::to_uppercase`: the upper-cased form of the string,
/// a function of its characters alone.
#[verifier::external_body]
fn to_upper(s: &String) -> (r: String)
    ensures
        r@ == upper_of(s@),
{
    s.to_uppercase()
}

/// One registered parameter: its flags, its value name, and its help
/// line.
pub struct Argument {
    pub short: String,
    pub long: String,
    pub name: String,
    pub help: String,
}

/// A minimal argument parser: a description and the registered
/// parameters.
pub struct ArgumentParser {
    pub desc: String,
    pub params: Vec<Argument>,
}

/// The usage fragment of one parameter: its flags bracketed, then its
/// upper-cased value name.
pub open spec fn spec_param_usage(a: Argument) -> Seq<char> {
    if a.long@.len() > 0 && a.short@.len() > 0 {
        "["@ + a.short@ + "|"@ + a.long@ + "] "@ + upper_of(a.name@) + " "@
    } else if a.long@.len() > 0 {
        "["@ + a.long@ + "] "@ + upper_of(a.name@) + " "@
    } else {
        "["@ + a.short@ + "] "@ + upper_of(a.name@) + " "@
    }
}

/// The usage fragments of all parameters, in order.
pub open spec fn spec_params_usage(ps: Seq<Argument>) -> Seq<char>
    decreases ps.len(),
{
    if ps.len() == 0 {
        Seq::empty()
    } else {
        spec_param_usage(ps[0]) + spec_params_usage(ps.drop_first())
    }
}

/// The whole help text: the usage line, a blank line, the description,
/// and a closing blank line.
pub open spec fn spec_help(p: ArgumentParser, args: Seq<String>) -> Seq<char> {
    "usage: "@ + args[0]@ + " [-h|--help] "@ + spec_params_usage(p.params@) + "\n\n"@ + p.desc@
        + "\n\n"@
}

impl Default for ArgumentParser {
    /// An empty parser: no description, no parameters.
    fn default() -> (r: ArgumentParser)
        ensures
            r.desc@ == Seq::<char>::empty(),
            r.params@ == Seq::<Argument>::empty(),
    {
        ArgumentParser { desc: String::new(), params: Vec::new() }
    }
}

impl ArgumentParser {
    /// Registers one parameter.
    pub fn add(&mut self, short: String, long: String, name: String, help: String)
        ensures
            final(self).params@ == old(self).params@.push((Argument { short, long, name, help })),
            final(self).desc == old(self).desc,
    {
        self.params.push(Argument { short, long, name, help });
    }

    /// Builds the help text for the given arguments; the first argument
    /// is the program name shown in the usage line.
    pub fn help(&self, args: &Vec<String>) -> (r: String)
        requires
            args@.len() > 0,
        ensures
            r@ == spec_help(*self, args@),
    {
        let mut out = String::new();
        out.append("usage: ");
        out.append(args[0].as_str());
        out.append(" [-h|--help] ");
        let ghost base = out@;
        proof {
            assert(base =~= (("usage: "@ + args@[0]@) + " [-h|--help] "@));
            assert(self.params@.skip(0) =~= self.params@);
            assert(base + spec_params_usage(self.params@) =~= base + spec_params_usage(
                self.params@,
            ));
        }
        let mut i: usize = 0;
        while i < self.params.len()
            invariant
                i <= self.params@.len(),
                out@ + spec_params_usage(self.params@.skip(i as int)) == base + spec_params_usage(
                    self.params@,
                ),
            decreases self.params@.len() - i,
        {
            let ghost pre = out@;
            let ghost rest = self.params@.skip(i as int);
            proof {
                assert(rest[0] == self.params@[i as int]);
                assert(rest.drop_first() =~= self.params@.skip(i + 1));
            }
            let p = &self.params[i];
            let has_long = p.long.as_str().unicode_len() > 0;
            let has_short = p.short.as_str().unicode_len() > 0;
            let upper_name = to_upper(&p.name);
            if has_long && has_short {
                out.append("[");
                out.append(p.short.as_str());
                out.append("|");
                out.append(p.long.as_str());
                out.append("] ");
                out.append(upper_name.as_str());
                out.append(" ");
                proof {
                    assert(out@ =~= pre + spec_param_usage(rest[0]));
                }
            } else if has_long {
                out.append("[");
                out.append(p.long.as_str());
                out.append("] ");
                out.append(upper_name.as_str());
                out.append(" ");
                proof {
                    assert(out@ =~= pre + spec_param_usage(rest[0]));
                }
            } else {
                out.append("[");
                out.append(p.short.as_str());
                out.append("] ");
                out.append(upper_name.as_str());
                out.append(" ");
                proof {
                    assert(out@ =~= pre + spec_param_usage(rest[0]));
                }
            }
            proof {
                assert((pre + spec_param_usage(rest[0])) + spec_params_usage(rest.drop_first())
                    =~= pre + (spec_param_usage(rest[0]) + spec_params_usage(rest.drop_first())));
            }
            i = i + 1;
        }
        proof {
            assert(out@ + spec_params_usage(self.params@.skip(i as int)) =~= out@);
        }
        out.append("\n\n");
        out.append(self.desc.as_str());
        out.append("\n\n");
        proof {
            assert(out@ =~= spec_help(*self, args@));
        }
        out
    }

    /// Scans for a help flag; when `-h` or `--help` occurs among the
    /// arguments, hands back the help text, and otherwise nothing.
    pub fn parse(&self, args: &Vec<String>) -> (r: Option<String>)
        ensures
            (r is Some) <==> (exists|i: int|
                0 <= i < args@.len() && (args@[i]@ == "-h"@ || args@[i]@ == "--help"@)),
            r matches Some(h) ==> h@ == spec_help(*self, args@),
    {
        let short_flag = String::from_str("-h");
        let long_flag = String::from_str("--help");
        let mut i: usize = 0;
        while i < args.len()
            invariant
                i <= args@.len(),
                short_flag@ == "-h"@,
                long_flag@ == "--help"@,
                forall|j: int| 0 <= j < i ==> !(#[trigger] args@[j]@ == "-h"@ || args@[j]@
                    == "--help"@),
            decreases args@.len() - i,
        {
            if args[i].eq(&short_flag) || args[i].eq(&long_flag) {
                return Some(self.help(args));
            }
            i = i + 1;
        }
        None
    }
}

} // verus!
