//! Echoing a line of text.
//!
//! The caller parses its command line and hands over the plain argument
//! strings; the output line is their space-separated join, with a
//! trailing line break unless it is suppressed.

use vstd::prelude::*;

verus! {

/// The argument strings joined with single spaces.
pub open spec fn spec_join_spaced(ss: Seq<String>) -> Seq<char>
    decreases ss.len(),
{
    if ss.len() == 0 {
        Seq::empty()
    } else if ss.len() == 1 {
        ss[0]@
    } else {
        ss[0]@ + " "@ + spec_join_spaced(ss.drop_first())
    }
}

/// The echoed output: the joined arguments, and a line break unless it
/// is suppressed.
pub open spec fn spec_echo_output(ss: Seq<String>, suppress_newline: bool) -> Seq<char> {
    spec_join_spaced(ss) + (if suppress_newline {
        Seq::empty()
    } else {
        "\n"@
    })
}

/// Builds the echoed line from the given argument strings.
pub fn get_string_from_match(strings: &Vec<String>, suppress_newline: bool) -> (r: String)
    ensures
        r@ == spec_echo_output(strings@, suppress_newline),
{
    let mut out = String::new();
    let mut i: usize = 0;
    proof {
        assert(strings@.skip(0) =~= strings@);
        assert(Seq::<char>::empty() + spec_join_spaced(strings@) =~= spec_join_spaced(strings@));
    }
    while i < strings.len()
        invariant
            i <= strings@.len(),
            out@ + spec_join_spaced(strings@.skip(i as int)) == spec_join_spaced(strings@),
        decreases strings@.len() - i,
    {
        let ghost pre = out@;
        out.append(strings[i].as_str());
        if i + 1 < strings.len() {
            out.append(" ");
        }
        proof {
            let rest = strings@.skip(i as int);
            assert(rest[0] == strings@[i as int]);
            assert(rest.drop_first() =~= strings@.skip(i + 1));
            if i + 1 < strings@.len() {
                assert(out@ =~= (pre + rest[0]@) + " "@);
                assert(((pre + rest[0]@) + " "@) + spec_join_spaced(rest.drop_first()) =~= pre + ((
                rest[0]@ + " "@) + spec_join_spaced(rest.drop_first())));
            } else {
                assert(rest.len() == 1);
                assert(spec_join_spaced(strings@.skip(i + 1)) == Seq::<char>::empty());
                assert((pre + rest[0]@) + Seq::<char>::empty() =~= pre + rest[0]@);
            }
        }
        i = i + 1;
    }
    proof {
        assert(out@ + spec_join_spaced(strings@.skip(i as int)) =~= out@);
    }
    if !suppress_newline {
        out.append("\n");
    }
    proof {
        if suppress_newline {
            assert(out@ + Seq::<char>::empty() =~= out@);
        }
    }
    out
}

} // verus!
