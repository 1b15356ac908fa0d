//! Character and string helpers shared by the whole library: classification,
//! decimal numerals, case folding, splitting, trimming and joining, each with
//! an exact specification.

use vstd::prelude::*;
use vstd::string::StrSliceExecFns;
use vstd::string::StringExecFns;

verus! {

/// Appends one character to a string.
///
/// Relies on `String::push`, which appends the given char to the end of the
/// string.
#[verifier::external_body]
pub(crate) fn push_char(s: &mut String, c: char)
    ensures
        final(s)@ == old(s)@.push(c),
{
    s.push(c);
}

/// Turns a vector of characters into the string holding exactly them.
pub(crate) fn chars_to_string(v: &Vec<char>) -> (r: String)
    ensures
        r@ == v@,
{
    let mut r = String::new();
    assert(v@.take(0) =~= r@);
    let n: usize = v.len();
    for i in 0..n
        invariant
            n == v@.len(),
            r@ == v@.take(i as int),
    {
        push_char(&mut r, v[i]);
        assert(v@.take(i + 1) =~= v@.take(i as int).push(v@[i as int]));
    }
    assert(v@.take(n as int) =~= v@);
    r
}

/// String-slice equality with an exact contract.
pub fn str_eq(a: &str, b: &str) -> (r: bool)
    ensures
        r == (a@ == b@),
{
    let aa: String = a.to_owned();
    let bb: String = b.to_owned();
    aa == bb
}

/// Whether the vector holds a string whose characters equal `x`.
pub fn contains_str(v: &Vec<String>, x: &str) -> (r: bool)
    ensures
        r == (exists|i: int| 0 <= i < v@.len() && v@[i]@ == x@),
{
    let n: usize = v.len();
    for i in 0..n
        invariant
            n == v@.len(),
            forall|j: int| 0 <= j < i ==> v@[j]@ != x@,
    {
        if str_eq(v[i].as_str(), x) {
            return true;
        }
    }
    false
}

/// ASCII decimal digit.
pub open spec fn spec_is_digit(c: char) -> bool {
    '0' <= c && c <= '9'
}

/// Executable twin of `spec_is_digit`.
pub fn is_digit(c: char) -> (r: bool)
    ensures
        r == spec_is_digit(c),
{
    '0' <= c && c <= '9'
}

/// The numeral character for a digit value in `0..=9`.
pub open spec fn spec_digit_char(d: int) -> char {
    ((d + 0x30) as u8) as char
}

/// The value of a decimal digit character.
pub open spec fn spec_digit_val(c: char) -> int {
    c as int - 0x30
}

/// Every character of the sequence is a decimal digit.
pub open spec fn spec_all_digits(s: Seq<char>) -> bool {
    forall|i: int| 0 <= i < s.len() ==> spec_is_digit(s[i])
}

/// The value of a digit string read in base ten.
pub open spec fn spec_dec_val(s: Seq<char>) -> int
    decreases s.len(),
{
    if s.len() == 0 {
        0
    } else {
        spec_dec_val(s.drop_last()) * 10 + spec_digit_val(s.last())
    }
}

/// The shortest decimal numeral of a natural number.
pub open spec fn spec_dec(n: nat) -> Seq<char>
    decreases n,
{
    if n < 10 {
        seq![spec_digit_char(n as int)]
    } else {
        spec_dec(n / 10).push(spec_digit_char((n % 10) as int))
    }
}

/// Renders a number as its shortest decimal numeral.
pub fn u64_to_string(n: u64) -> (r: String)
    ensures
        r@ == spec_dec(n as nat),
{
    let mut digits: Vec<char> = Vec::new();
    assert(spec_dec(n as nat) =~= spec_dec(n as nat) + digits@);
    let mut m: u64 = n;
    while m >= 10
        invariant
            spec_dec(n as nat) == spec_dec(m as nat) + digits@,
        decreases m,
    {
        let ghost digits0 = digits@;
        let d: u8 = (m % 10) as u8;
        digits.insert(0, (d + 0x30) as char);
        proof {
            assert(digits@ =~= seq![spec_digit_char((m % 10) as int)] + digits0);
            assert(spec_dec(m as nat) == spec_dec((m / 10) as nat).push(spec_digit_char((m % 10) as int)));
            assert(spec_dec((m / 10) as nat) + digits@ =~= spec_dec(m as nat) + digits0);
        }
        m = m / 10;
    }
    let ghost digits1 = digits@;
    let d: u8 = (m % 10) as u8;
    digits.insert(0, (d + 0x30) as char);
    proof {
        assert(digits@ =~= seq![spec_digit_char(m as int)] + digits1);
        assert(spec_dec(m as nat) =~= seq![spec_digit_char(m as int)]);
        assert(digits@ =~= spec_dec(n as nat));
    }
    chars_to_string(&digits)
}

/// The digit part of a numeral that may start with one `+` sign.
pub open spec fn spec_digits_part(s: Seq<char>) -> Seq<char> {
    if s.len() > 0 && s[0] == '+' {
        s.skip(1)
    } else {
        s
    }
}

/// What parsing a decimal numeral into a `u64` yields: the value when the
/// text is an optional `+` sign followed by one or more digits and the value
/// fits, nothing otherwise.
pub open spec fn spec_parse_u64(s: Seq<char>) -> Option<u64> {
    let d = spec_digits_part(s);
    if d.len() > 0 && spec_all_digits(d) && spec_dec_val(d) <= u64::MAX {
        Some(spec_dec_val(d) as u64)
    } else {
        None
    }
}

proof fn lemma_dec_val_nonneg(s: Seq<char>)
    requires
        spec_all_digits(s),
    ensures
        spec_dec_val(s) >= 0,
    decreases s.len(),
{
    if s.len() > 0 {
        assert(spec_all_digits(s.drop_last()));
        lemma_dec_val_nonneg(s.drop_last());
    }
}

proof fn lemma_dec_val_grows(s: Seq<char>, k: int)
    requires
        spec_all_digits(s),
        0 <= k <= s.len(),
    ensures
        spec_dec_val(s) >= spec_dec_val(s.take(k)),
    decreases s.len() - k,
{
    if k < s.len() {
        lemma_dec_val_grows(s, k + 1);
        assert(s.take(k + 1).drop_last() =~= s.take(k));
        assert(spec_all_digits(s.take(k)));
        lemma_dec_val_nonneg(s.take(k));
        assert(spec_dec_val(s.take(k + 1)) == spec_dec_val(s.take(k)) * 10 + spec_digit_val(s.take(k + 1).last()));
        assert(spec_dec_val(s.take(k + 1)) >= spec_dec_val(s.take(k))) by (nonlinear_arith)
            requires
                spec_dec_val(s.take(k + 1)) == spec_dec_val(s.take(k)) * 10 + spec_digit_val(s.take(k + 1).last()),
                spec_dec_val(s.take(k)) >= 0,
                spec_digit_val(s.take(k + 1).last()) >= 0,
        {}
    } else {
        assert(s.take(k) =~= s);
    }
}

/// A short digit string has a small value.
pub proof fn lemma_dec_val_small(s: Seq<char>)
    requires
        spec_all_digits(s),
    ensures
        spec_dec_val(s) >= 0,
        s.len() <= 1 ==> spec_dec_val(s) < 10,
        s.len() <= 2 ==> spec_dec_val(s) < 100,
        s.len() <= 3 ==> spec_dec_val(s) < 1000,
    decreases s.len(),
{
    if s.len() > 0 {
        assert(spec_all_digits(s.drop_last()));
        lemma_dec_val_small(s.drop_last());
        assert(0 <= spec_digit_val(s.last()) <= 9);
    }
}

/// Parses a decimal numeral, exactly as `spec_parse_u64` says.
pub fn parse_u64(s: &str) -> (r: Option<u64>)
    ensures
        r == spec_parse_u64(s@),
{
    let n: usize = s.unicode_len();
    let mut start: usize = 0;
    if n > 0 && s.get_char(0) == '+' {
        start = 1;
    }
    let ghost d = spec_digits_part(s@);
    assert(d =~= s@.skip(start as int));
    if start >= n {
        return None;
    }
    let mut acc: u64 = 0;
    let mut j: usize = start;
    while j < n
        invariant
            n == s@.len(),
            start <= j <= n,
            start < n,
            d == s@.skip(start as int),
            d == spec_digits_part(s@),
            spec_all_digits(d.take(j - start)),
            acc == spec_dec_val(d.take(j - start)),
        decreases n - j,
    {
        let c = s.get_char(j);
        assert(d[j - start] == s@[j as int]);
        if !is_digit(c) {
            assert(!spec_is_digit(d[j - start]));
            assert(!spec_all_digits(d));
            return None;
        }
        let dv: u64 = ((c as u8) - 0x30) as u64;
        assert(dv == spec_digit_val(c));
        if acc > (u64::MAX - dv) / 10 {
            proof {
                assert(d.take(j - start + 1).drop_last() =~= d.take(j - start));
                assert(spec_dec_val(d.take(j - start + 1)) == acc * 10 + dv);
                assert(acc * 10 + dv > u64::MAX) by (nonlinear_arith)
                    requires
                        acc > (u64::MAX - dv) / 10,
                        0 <= dv <= 9,
                        acc >= 0,
                {}
                if spec_all_digits(d) {
                    lemma_dec_val_grows(d, j - start + 1);
                    assert(spec_dec_val(d) > u64::MAX);
                }
            }
            return None;
        }
        proof {
            assert(acc * 10 + dv <= u64::MAX) by (nonlinear_arith)
                requires
                    acc <= (u64::MAX - dv) / 10,
                    0 <= dv <= 9,
                    acc >= 0,
            {}
            assert(d.take(j - start + 1).drop_last() =~= d.take(j - start));
        }
        acc = acc * 10 + dv;
        j += 1;
    }
    assert(d.take(n - start) =~= d);
    Some(acc)
}

/// The views of a sequence of strings.
pub open spec fn views_of(v: Seq<String>) -> Seq<Seq<char>> {
    v.map_values(|s: String| s@)
}

/// ASCII case folding of one character.
pub open spec fn spec_lower_char(c: char) -> char {
    if 'A' <= c && c <= 'Z' {
        (((c as u8) + 0x20) as u8) as char
    } else {
        c
    }
}

/// ASCII case folding of a character sequence.
pub open spec fn spec_lower(s: Seq<char>) -> Seq<char> {
    s.map_values(|c: char| spec_lower_char(c))
}

/// Folds ASCII upper-case letters of a string to lower case.
pub fn ascii_lower(s: &str) -> (r: String)
    ensures
        r@ == spec_lower(s@),
{
    let mut v: Vec<char> = Vec::new();
    let n: usize = s.unicode_len();
    assert(v@ =~= spec_lower(s@.take(0)));
    for i in 0..n
        invariant
            n == s@.len(),
            v@ == spec_lower(s@.take(i as int)),
    {
        let c = s.get_char(i);
        let lc: char = if 'A' <= c && c <= 'Z' {
            ((c as u8) + 0x20) as char
        } else {
            c
        };
        v.push(lc);
        assert(spec_lower(s@.take(i + 1)) =~= spec_lower(s@.take(i as int)).push(spec_lower_char(s@[i as int])));
    }
    assert(s@.take(n as int) =~= s@);
    chars_to_string(&v)
}

/// ASCII whitespace, the kind that may pad a configuration line.
pub open spec fn spec_is_space(c: char) -> bool {
    c == ' ' || c == '\t' || c == '\r' || c == '\n'
}

/// Executable twin of `spec_is_space`.
pub fn is_space(c: char) -> (r: bool)
    ensures
        r == spec_is_space(c),
{
    c == ' ' || c == '\t' || c == '\r' || c == '\n'
}

/// The sequence with its leading whitespace removed.
pub open spec fn spec_trim_start(s: Seq<char>) -> Seq<char>
    decreases s.len(),
{
    if s.len() > 0 && spec_is_space(s.first()) {
        spec_trim_start(s.drop_first())
    } else {
        s
    }
}

/// The sequence with its trailing whitespace removed.
pub open spec fn spec_trim_end(s: Seq<char>) -> Seq<char>
    decreases s.len(),
{
    if s.len() > 0 && spec_is_space(s.last()) {
        spec_trim_end(s.drop_last())
    } else {
        s
    }
}

/// The sequence with whitespace removed at both ends.
pub open spec fn spec_trim(s: Seq<char>) -> Seq<char> {
    spec_trim_end(spec_trim_start(s))
}

/// The text with every whitespace character turned into a plain space, so
/// that a single-character split finds all token boundaries.
pub open spec fn spec_norm_ws(s: Seq<char>) -> Seq<char> {
    s.map_values(|c: char| if spec_is_space(c) { ' ' } else { c })
}

/// Normalizes whitespace to plain spaces.
pub fn norm_ws(s: &str) -> (r: String)
    ensures
        r@ == spec_norm_ws(s@),
{
    let mut v: Vec<char> = Vec::new();
    let n: usize = s.unicode_len();
    assert(v@ =~= spec_norm_ws(s@.take(0)));
    for i in 0..n
        invariant
            n == s@.len(),
            v@ == spec_norm_ws(s@.take(i as int)),
    {
        let c = s.get_char(i);
        if is_space(c) {
            v.push(' ');
        } else {
            v.push(c);
        }
        assert(spec_norm_ws(s@.take(i + 1)) =~= spec_norm_ws(s@.take(i as int)).push(
            if spec_is_space(s@[i as int]) {
                ' '
            } else {
                s@[i as int]
            },
        ));
    }
    assert(s@.take(n as int) =~= s@);
    chars_to_string(&v)
}

/// The characters of `s` at positions `lo..hi`, as a fresh string.
pub fn substring_chars(s: &str, lo: usize, hi: usize) -> (r: String)
    requires
        lo <= hi <= s@.len(),
    ensures
        r@ == s@.subrange(lo as int, hi as int),
{
    let mut v: Vec<char> = Vec::new();
    assert(v@ =~= s@.subrange(lo as int, lo as int));
    let mut i: usize = lo;
    while i < hi
        invariant
            lo <= i <= hi <= s@.len(),
            v@ == s@.subrange(lo as int, i as int),
        decreases hi - i,
    {
        v.push(s.get_char(i));
        assert(s@.subrange(lo as int, i + 1) =~= s@.subrange(lo as int, i as int).push(s@[i as int]));
        i += 1;
    }
    chars_to_string(&v)
}

/// Removes leading and trailing ASCII whitespace.
pub fn trim(s: &str) -> (r: String)
    ensures
        r@ == spec_trim(s@),
{
    let n: usize = s.unicode_len();
    let mut lo: usize = 0;
    assert(s@.skip(0) =~= s@);
    while lo < n
        invariant_except_break
            n == s@.len(),
            lo <= n,
            spec_trim_start(s@) == spec_trim_start(s@.skip(lo as int)),
        ensures
            n == s@.len(),
            lo <= n,
            spec_trim_start(s@) == s@.skip(lo as int),
        decreases n - lo,
    {
        let c = s.get_char(lo);
        if !is_space(c) {
            assert(s@.skip(lo as int).first() == s@[lo as int]);
            break;
        }
        assert(s@.skip(lo as int).drop_first() =~= s@.skip(lo + 1));
        lo += 1;
        if lo == n {
            assert(s@.skip(lo as int) =~= Seq::<char>::empty());
        }
    }
    if lo == n {
        assert(s@.skip(lo as int) =~= Seq::<char>::empty());
    }
    let ghost mid = s@.skip(lo as int);
    let mut hi: usize = n;
    assert(s@.subrange(lo as int, hi as int) =~= mid);
    while hi > lo
        invariant_except_break
            n == s@.len(),
            lo <= hi <= n,
            spec_trim_end(mid) == spec_trim_end(s@.subrange(lo as int, hi as int)),
        ensures
            lo <= hi <= n,
            spec_trim_end(mid) == s@.subrange(lo as int, hi as int),
        decreases hi,
    {
        let c = s.get_char(hi - 1);
        if !is_space(c) {
            assert(s@.subrange(lo as int, hi as int).last() == s@[hi - 1]);
            break;
        }
        assert(s@.subrange(lo as int, hi as int).drop_last() =~= s@.subrange(lo as int, hi - 1));
        hi -= 1;
        if hi == lo {
            assert(s@.subrange(lo as int, hi as int) =~= Seq::<char>::empty());
        }
    }
    if hi == lo {
        assert(s@.subrange(lo as int, hi as int) =~= Seq::<char>::empty());
    }
    substring_chars(s, lo, hi)
}

/// Whether `s` starts with the characters of `p`.
pub fn starts_with(s: &str, p: &str) -> (r: bool)
    ensures
        r == (s@.len() >= p@.len() && s@.take(p@.len() as int) == p@),
{
    let n: usize = s.unicode_len();
    let m: usize = p.unicode_len();
    if m > n {
        return false;
    }
    for i in 0..m
        invariant
            n == s@.len(),
            m == p@.len(),
            m <= n,
            forall|j: int| 0 <= j < i ==> s@[j] == p@[j],
    {
        if s.get_char(i) != p.get_char(i) {
            assert(s@.take(p@.len() as int)[i as int] != p@[i as int]);
            return false;
        }
    }
    assert(s@.take(p@.len() as int) =~= p@);
    true
}

/// What splitting a character sequence at a separator yields: at least one
/// piece, the separators gone, empty pieces kept.
pub open spec fn spec_split(s: Seq<char>, sep: char) -> Seq<Seq<char>>
    decreases s.len(),
{
    if s.len() == 0 {
        seq![Seq::<char>::empty()]
    } else if s.last() == sep {
        spec_split(s.drop_last(), sep).push(Seq::<char>::empty())
    } else {
        let r = spec_split(s.drop_last(), sep);
        r.update(r.len() - 1, r.last().push(s.last()))
    }
}

/// Splitting yields at least one piece.
pub proof fn lemma_split_len(s: Seq<char>, sep: char)
    ensures
        spec_split(s, sep).len() >= 1,
    decreases s.len(),
{
    if s.len() > 0 {
        lemma_split_len(s.drop_last(), sep);
    }
}

/// Splits a string at every occurrence of a separator character.
pub fn split_char(s: &str, sep: char) -> (r: Vec<String>)
    ensures
        views_of(r@) == spec_split(s@, sep),
{
    let mut out: Vec<String> = Vec::new();
    let mut cur: Vec<char> = Vec::new();
    let n: usize = s.unicode_len();
    assert(spec_split(s@.take(0), sep) =~= views_of(out@).push(cur@));
    for i in 0..n
        invariant
            n == s@.len(),
            spec_split(s@.take(i as int), sep) == views_of(out@).push(cur@),
    {
        let ghost out0 = out@;
        let ghost cur0 = cur@;
        let c = s.get_char(i);
        proof {
            assert(s@.take(i + 1).drop_last() =~= s@.take(i as int));
            assert(s@.take(i + 1).last() == s@[i as int]);
        }
        if c == sep {
            let done = chars_to_string(&cur);
            out.push(done);
            cur = Vec::new();
            proof {
                assert(views_of(out@) =~= views_of(out0).push(cur0));
                assert(spec_split(s@.take(i + 1), sep) =~= views_of(out@).push(cur@));
            }
        } else {
            cur.push(c);
            proof {
                lemma_split_len(s@.take(i as int), sep);
                assert(spec_split(s@.take(i + 1), sep) =~= views_of(out0).push(cur0.push(s@[i as int])));
                assert(views_of(out@).push(cur@) =~= views_of(out0).push(cur0.push(s@[i as int])));
            }
        }
    }
    let done = chars_to_string(&cur);
    let ghost out1 = out@;
    let ghost cur1 = cur@;
    out.push(done);
    proof {
        assert(s@.take(n as int) =~= s@);
        assert(views_of(out@) =~= views_of(out1).push(cur1));
    }
    out
}

/// The trimmed, non-empty pieces of a split list, in order.
pub open spec fn spec_clean_list(pieces: Seq<Seq<char>>) -> Seq<Seq<char>>
    decreases pieces.len(),
{
    if pieces.len() == 0 {
        Seq::<Seq<char>>::empty()
    } else {
        let rest = spec_clean_list(pieces.drop_last());
        if spec_trim(pieces.last()).len() > 0 {
            rest.push(spec_trim(pieces.last()))
        } else {
            rest
        }
    }
}

/// Splits at a separator, trims each piece, and drops the empty ones.
pub fn split_items(val: &str, sep: char) -> (r: Vec<String>)
    ensures
        views_of(r@) == spec_clean_list(spec_split(val@, sep)),
{
    let parts = split_char(val, sep);
    let mut out: Vec<String> = Vec::new();
    let ghost pieces = views_of(parts@);
    assert(views_of(out@) =~= spec_clean_list(pieces.take(0)));
    let n: usize = parts.len();
    for i in 0..n
        invariant
            n == parts@.len(),
            pieces == views_of(parts@),
            views_of(out@) == spec_clean_list(pieces.take(i as int)),
    {
        let ghost out0 = out@;
        let item = trim(parts[i].as_str());
        if item.as_str().unicode_len() > 0 {
            out.push(item);
            proof {
                assert(views_of(out@) =~= views_of(out0).push(spec_trim(pieces[i as int])));
            }
        }
        proof {
            assert(pieces.take(i + 1).drop_last() =~= pieces.take(i as int));
            assert(pieces.take(i + 1).last() == pieces[i as int]);
        }
    }
    proof {
        assert(pieces.take(n as int) =~= pieces);
    }
    out
}

/// What joining pieces with a separator yields.
pub open spec fn spec_join(items: Seq<Seq<char>>, sep: Seq<char>) -> Seq<char>
    decreases items.len(),
{
    if items.len() == 0 {
        Seq::<char>::empty()
    } else if items.len() == 1 {
        items[0]
    } else {
        items[0] + sep + spec_join(items.drop_first(), sep)
    }
}

/// How one more piece extends a join.
pub proof fn lemma_join_push(items: Seq<Seq<char>>, sep: Seq<char>, x: Seq<char>)
    ensures
        spec_join(items.push(x), sep) == if items.len() == 0 {
            x
        } else {
            spec_join(items, sep) + sep + x
        },
    decreases items.len(),
{
    if items.len() == 0 {
        assert(spec_join(items.push(x), sep) == items.push(x)[0]);
        assert(items.push(x)[0] == x);
    } else {
        assert(items.push(x).drop_first() =~= items.drop_first().push(x));
        lemma_join_push(items.drop_first(), sep, x);
        if items.len() == 1 {
            assert(items.drop_first().len() == 0);
            assert(spec_join(items.push(x), sep) == items[0] + sep + x);
            assert(spec_join(items, sep) == items[0]);
        } else {
            assert(spec_join(items.push(x), sep) == items[0] + sep + (spec_join(items.drop_first(), sep) + sep + x));
            assert(items[0] + sep + (spec_join(items.drop_first(), sep) + sep + x) =~= (items[0] + sep + spec_join(items.drop_first(), sep)) + sep + x);
        }
    }
}

/// Joins strings with a separator, exactly as `spec_join` says.
pub fn join_strings(items: &Vec<String>, sep: &str) -> (r: String)
    ensures
        r@ == spec_join(views_of(items@), sep@),
{
    let mut r = String::new();
    let n: usize = items.len();
    for i in 0..n
        invariant
            n == items@.len(),
            i == 0 ==> r@ == Seq::<char>::empty(),
            i > 0 ==> r@ == spec_join(views_of(items@.take(i as int)), sep@),
    {
        proof {
            lemma_join_push(views_of(items@.take(i as int)), sep@, items@[i as int]@);
            assert(views_of(items@.take(i + 1)) =~= views_of(items@.take(i as int)).push(items@[i as int]@));
            assert(views_of(items@.take(i as int)).len() == i);
        }
        if i > 0 {
            r.append(sep);
        }
        r.append(items[i].as_str());
    }
    if n == 0 {
        assert(views_of(items@).len() == 0);
    } else {
        assert(items@.take(n as int) =~= items@);
    }
    r
}

/// Whether the characters of `p` occur contiguously anywhere in `s`.
pub fn contains_substring(s: &str, p: &str) -> (r: bool)
    ensures
        r == (exists|k: int|
            0 <= k && k + p@.len() <= s@.len() && #[trigger] s@.subrange(k, k + p@.len()) == p@),
{
    let n: usize = s.unicode_len();
    let m: usize = p.unicode_len();
    if m > n {
        assert(forall|k: int| !(0 <= k && k + p@.len() <= s@.len() && #[trigger] s@.subrange(
            k,
            k + p@.len(),
        ) == p@));
        return false;
    }
    if m == 0 {
        assert(s@.subrange(0, 0 + p@.len() as int) =~= p@);
        return true;
    }
    let last: usize = n - m;
    for k in 0..(last + 1)
        invariant
            n == s@.len(),
            m == p@.len(),
            m <= n,
            last == n - m,
            forall|k0: int| 0 <= k0 < k ==> #[trigger] s@.subrange(k0, k0 + p@.len()) != p@,
    {
        if match_at(s, p, k) {
            return true;
        }
    }
    false
}

/// Whether the characters of `p` stand in `s` at offset `k`.
fn match_at(s: &str, p: &str, k: usize) -> (r: bool)
    requires
        k + p@.len() <= s@.len(),
    ensures
        r == (s@.subrange(k as int, k as int + p@.len()) == p@),
{
    let m: usize = p.unicode_len();
    let n: usize = s.unicode_len();
    for j in 0..m
        invariant
            m == p@.len(),
            n == s@.len(),
            k + m <= n,
            forall|j0: int| 0 <= j0 < j ==> s@[k + j0] == p@[j0],
    {
        if s.get_char(k + j) != p.get_char(j) {
            assert(s@.subrange(k as int, k as int + p@.len())[j as int] != p@[j as int]);
            return false;
        }
    }
    assert(s@.subrange(k as int, k as int + p@.len()) =~= p@);
    true
}

/// Copies a vector of strings, text for text.
pub fn clone_strings(v: &Vec<String>) -> (r: Vec<String>)
    ensures
        r@ == v@,
{
    let mut r: Vec<String> = Vec::new();
    let n: usize = v.len();
    for i in 0..n
        invariant
            n == v@.len(),
            r@ == v@.take(i as int),
    {
        r.push(v[i].clone());
        assert(v@.take(i + 1) =~= v@.take(i as int).push(v@[i as int]));
    }
    assert(v@.take(n as int) =~= v@);
    r
}

/// Whether a vector of numbers holds the given one.
pub fn contains_u32(v: &Vec<u32>, x: u32) -> (r: bool)
    ensures
        r == v@.contains(x),
{
    let n: usize = v.len();
    for i in 0..n
        invariant
            n == v@.len(),
            forall|j: int| 0 <= j < i ==> v@[j] != x,
    {
        if v[i] == x {
            return true;
        }
    }
    false
}

/// Whether a vector of numbers holds the given one.
pub fn contains_u128(v: &Vec<u128>, x: u128) -> (r: bool)
    ensures
        r == v@.contains(x),
{
    let n: usize = v.len();
    for i in 0..n
        invariant
            n == v@.len(),
            forall|j: int| 0 <= j < i ==> v@[j] != x,
    {
        if v[i] == x {
            return true;
        }
    }
    false
}

} // verus!
