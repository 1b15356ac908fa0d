//! Peer-name slugs: lower-cased ASCII alphanumerics with every run of other
//! characters collapsed to a single hyphen, trimmed of hyphens at both ends.

use vstd::prelude::*;
use vstd::string::StrSliceExecFns;

use crate::text::{chars_to_string, spec_lower_char};

verus! {

/// ASCII letters and digits, the characters a slug keeps.
pub open spec fn spec_is_ascii_alnum(c: char) -> bool {
    ('a' <= c && c <= 'z') || ('A' <= c && c <= 'Z') || ('0' <= c && c <= '9')
}

/// Executable twin of `spec_is_ascii_alnum`.
pub fn is_ascii_alnum(c: char) -> (r: bool)
    ensures
        r == spec_is_ascii_alnum(c),
{
    ('a' <= c && c <= 'z') || ('A' <= c && c <= 'Z') || ('0' <= c && c <= '9')
}

/// The body of a slug before hyphen trimming: alphanumerics fold to lower
/// case, every maximal run of other characters becomes one hyphen. The flag
/// records whether a hyphen was just emitted.
pub open spec fn spec_slug_rec(s: Seq<char>, prev_dash: bool) -> Seq<char>
    decreases s.len(),
{
    if s.len() == 0 {
        Seq::<char>::empty()
    } else if spec_is_ascii_alnum(s.first()) {
        seq![spec_lower_char(s.first())] + spec_slug_rec(s.drop_first(), false)
    } else if prev_dash {
        spec_slug_rec(s.drop_first(), true)
    } else {
        seq!['-'] + spec_slug_rec(s.drop_first(), true)
    }
}

/// The sequence with its leading hyphens removed.
pub open spec fn spec_trim_dash_start(s: Seq<char>) -> Seq<char>
    decreases s.len(),
{
    if s.len() > 0 && s.first() == '-' {
        spec_trim_dash_start(s.drop_first())
    } else {
        s
    }
}

/// The sequence with its trailing hyphens removed.
pub open spec fn spec_trim_dash_end(s: Seq<char>) -> Seq<char>
    decreases s.len(),
{
    if s.len() > 0 && s.last() == '-' {
        spec_trim_dash_end(s.drop_last())
    } else {
        s
    }
}

/// What slugging a name yields.
pub open spec fn spec_slugify(s: Seq<char>) -> Seq<char> {
    spec_trim_dash_end(spec_trim_dash_start(spec_slug_rec(s, false)))
}

/// Slugs a peer name, exactly as `spec_slugify` says.
pub fn slugify(name: &str) -> (r: String)
    ensures
        r@ == spec_slugify(name@),
{
    let mut body: Vec<char> = Vec::new();
    let mut prev_dash: bool = false;
    let n: usize = name.unicode_len();
    assert(name@.skip(0) =~= name@);
    for i in 0..n
        invariant
            n == name@.len(),
            spec_slug_rec(name@, false) == body@ + spec_slug_rec(name@.skip(i as int), prev_dash),
    {
        let ghost body0 = body@;
        let c = name.get_char(i);
        proof {
            assert(name@.skip(i as int).first() == name@[i as int]);
            assert(name@.skip(i as int).drop_first() =~= name@.skip(i + 1));
        }
        if is_ascii_alnum(c) {
            let lc: char = if 'A' <= c && c <= 'Z' {
                ((c as u8) + 0x20) as char
            } else {
                c
            };
            body.push(lc);
            prev_dash = false;
            proof {
                assert(body0 + (seq![spec_lower_char(name@[i as int])] + spec_slug_rec(
                    name@.skip(i + 1),
                    false,
                )) =~= body@ + spec_slug_rec(name@.skip(i + 1), false));
            }
        } else if !prev_dash {
            body.push('-');
            prev_dash = true;
            proof {
                assert(body0 + (seq!['-'] + spec_slug_rec(name@.skip(i + 1), true)) =~= body@
                    + spec_slug_rec(name@.skip(i + 1), true));
            }
        }
    }
    proof {
        assert(name@.skip(n as int) =~= Seq::<char>::empty());
        assert(body@ + spec_slug_rec(name@.skip(n as int), prev_dash) =~= body@);
    }
    let ghost full = body@;
    let m: usize = body.len();
    let mut lo: usize = 0;
    assert(full.skip(0) =~= full);
    while lo < m
        invariant_except_break
            m == full.len(),
            full == body@,
            lo <= m,
            spec_trim_dash_start(full) == spec_trim_dash_start(full.skip(lo as int)),
        ensures
            m == full.len(),
            full == body@,
            lo <= m,
            spec_trim_dash_start(full) == full.skip(lo as int),
        decreases m - lo,
    {
        if body[lo] != '-' {
            assert(full.skip(lo as int).first() == full[lo as int]);
            break;
        }
        assert(full.skip(lo as int).drop_first() =~= full.skip(lo + 1));
        lo += 1;
    }
    let ghost mid = full.skip(lo as int);
    let mut hi: usize = m;
    assert(full.subrange(lo as int, hi as int) =~= mid);
    while hi > lo
        invariant_except_break
            m == full.len(),
            full == body@,
            lo <= hi <= m,
            spec_trim_dash_end(mid) == spec_trim_dash_end(full.subrange(lo as int, hi as int)),
        ensures
            full == body@,
            lo <= hi <= m,
            spec_trim_dash_end(mid) == full.subrange(lo as int, hi as int),
        decreases hi,
    {
        if body[hi - 1] != '-' {
            assert(full.subrange(lo as int, hi as int).last() == full[hi - 1]);
            break;
        }
        assert(full.subrange(lo as int, hi as int).drop_last() =~= full.subrange(lo as int, hi - 1));
        hi -= 1;
    }
    let mut kept: Vec<char> = Vec::new();
    assert(kept@ =~= full.subrange(lo as int, lo as int));
    let mut i: usize = lo;
    while i < hi
        invariant
            full == body@,
            lo <= i <= hi <= body@.len(),
            kept@ == full.subrange(lo as int, i as int),
        decreases hi - i,
    {
        kept.push(body[i]);
        assert(full.subrange(lo as int, i + 1) =~= full.subrange(lo as int, i as int).push(
            full[i as int],
        ));
        i += 1;
    }
    chars_to_string(&kept)
}

} // verus!
