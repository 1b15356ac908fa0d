//! Address model: IPv4 addresses as `u32`, IPv6 addresses as `u128`, their
//! text forms, and the two subnet types with their host ranges.
//!
//! IPv4 text is the dotted quad; IPv6 text is eight colon-separated hex
//! groups without zero compression — a form every consumer of the generated
//! files accepts, and one whose parser is this library's own.

use vstd::prelude::*;
use vstd::string::StrSliceExecFns;
use vstd::string::StringExecFns;
use vstd::arithmetic::power2::pow2;

use crate::errors::Error;
use crate::text::{
    chars_to_string, is_digit, parse_u64, spec_all_digits, spec_dec, spec_dec_val,
    spec_digit_char, spec_digit_val, spec_is_digit, spec_parse_u64, spec_split, split_char,
    u64_to_string, views_of,
};

verus! {

/// ASCII lowercase hex digit.
pub open spec fn spec_is_hex_digit(c: char) -> bool {
    ('0' <= c && c <= '9') || ('a' <= c && c <= 'f')
}

/// The value of a lowercase hex digit character.
pub open spec fn spec_hex_digit_val(c: char) -> int {
    if '0' <= c && c <= '9' {
        c as int - 0x30
    } else {
        c as int - 0x61 + 10
    }
}

/// The lowercase numeral character for a value in `0..=15`.
pub open spec fn spec_hex_digit_char(d: int) -> char {
    if d < 10 {
        ((d + 0x30) as u8) as char
    } else {
        ((d + 0x57) as u8) as char
    }
}

/// Executable twin of `spec_is_hex_digit`.
pub fn is_hex_digit(c: char) -> (r: bool)
    ensures
        r == spec_is_hex_digit(c),
{
    ('0' <= c && c <= '9') || ('a' <= c && c <= 'f')
}

/// The value of a hex digit string read in base sixteen.
pub open spec fn spec_hex_val(s: Seq<char>) -> int
    decreases s.len(),
{
    if s.len() == 0 {
        0
    } else {
        spec_hex_val(s.drop_last()) * 16 + spec_hex_digit_val(s.last())
    }
}

/// Every character is a lowercase hex digit.
pub open spec fn spec_all_hex(s: Seq<char>) -> bool {
    forall|i: int| 0 <= i < s.len() ==> spec_is_hex_digit(s[i])
}

/// The shortest lowercase hex numeral of a natural number.
pub open spec fn spec_hex(n: nat) -> Seq<char>
    decreases n,
{
    if n < 16 {
        seq![spec_hex_digit_char(n as int)]
    } else {
        spec_hex(n / 16).push(spec_hex_digit_char((n % 16) as int))
    }
}

/// Renders a 16-bit group as its shortest lowercase hex numeral.
pub fn u16_to_hex(n: u16) -> (r: String)
    ensures
        r@ == spec_hex(n as nat),
{
    let mut digits: Vec<char> = Vec::new();
    assert(spec_hex(n as nat) =~= spec_hex(n as nat) + digits@);
    let mut m: u16 = n;
    while m >= 16
        invariant
            spec_hex(n as nat) == spec_hex(m as nat) + digits@,
        decreases m,
    {
        let ghost digits0 = digits@;
        let d: u8 = (m % 16) as u8;
        let dc: char = if d < 10 {
            (d + 0x30) as char
        } else {
            (d + 0x57) as char
        };
        digits.insert(0, dc);
        proof {
            assert(digits@ =~= seq![spec_hex_digit_char((m % 16) as int)] + digits0);
            assert(spec_hex(m as nat) == spec_hex((m / 16) as nat).push(
                spec_hex_digit_char((m % 16) as int),
            ));
            assert(spec_hex((m / 16) as nat) + digits@ =~= spec_hex(m as nat) + digits0);
        }
        m = m / 16;
    }
    let ghost digits1 = digits@;
    let d: u8 = (m % 16) as u8;
    let dc: char = if d < 10 {
        (d + 0x30) as char
    } else {
        (d + 0x57) as char
    };
    digits.insert(0, dc);
    proof {
        assert(digits@ =~= seq![spec_hex_digit_char(m as int)] + digits1);
        assert(spec_hex(m as nat) =~= seq![spec_hex_digit_char(m as int)]);
        assert(digits@ =~= spec_hex(n as nat));
    }
    chars_to_string(&digits)
}

/// A dotted-quad octet: one to three digits, no leading zero, at most 255.
pub open spec fn spec_is_octet(s: Seq<char>) -> bool {
    1 <= s.len() <= 3 && spec_all_digits(s) && (s.len() > 1 ==> s[0] != '0') && spec_dec_val(s)
        <= 255
}

/// What parsing dotted-quad IPv4 text yields.
pub open spec fn spec_parse_ipv4(s: Seq<char>) -> Option<u32> {
    let parts = spec_split(s, '.');
    if parts.len() == 4 && spec_is_octet(parts[0]) && spec_is_octet(parts[1]) && spec_is_octet(
        parts[2],
    ) && spec_is_octet(parts[3]) {
        Some(
            (spec_dec_val(parts[0]) * 0x1000000 + spec_dec_val(parts[1]) * 0x10000 + spec_dec_val(
                parts[2],
            ) * 0x100 + spec_dec_val(parts[3])) as u32,
        )
    } else {
        None
    }
}

/// Checks one dotted-quad octet and yields its value.
fn parse_octet(t: &str) -> (r: Option<u8>)
    ensures
        r is Some <==> spec_is_octet(t@),
        r is Some ==> r.unwrap() == spec_dec_val(t@),
{
    let n: usize = t.unicode_len();
    if n < 1 || n > 3 {
        return None;
    }
    for i in 0..n
        invariant
            n == t@.len(),
            spec_all_digits(t@.take(i as int)),
    {
        let c = t.get_char(i);
        assert(t@.take(i + 1).drop_last() =~= t@.take(i as int));
        if !is_digit(c) {
            assert(!spec_is_digit(t@[i as int]));
            return None;
        }
        assert(spec_all_digits(t@.take(i + 1))) by {
            assert(forall|j: int|
                0 <= j < i + 1 ==> t@.take(i + 1)[j] == if j < i {
                    t@.take(i as int)[j]
                } else {
                    t@[i as int]
                });
        }
    }
    assert(t@.take(n as int) =~= t@);
    if n > 1 && t.get_char(0) == '0' {
        return None;
    }
    assert(spec_is_digit(t@[0]));
    assert(crate::text::spec_digits_part(t@) == t@);
    proof {
        crate::text::lemma_dec_val_small(t@);
    }
    match parse_u64(t) {
        Some(v) => {
            if v <= 255 {
                Some(v as u8)
            } else {
                None
            }
        },
        None => None,
    }
}

/// Parses dotted-quad IPv4 text, exactly as `spec_parse_ipv4` says.
pub fn parse_ipv4(s: &str) -> (r: Option<u32>)
    ensures
        r == spec_parse_ipv4(s@),
{
    let parts = split_char(s, '.');
    proof {
        assert(views_of(parts@).len() == parts@.len());
    }
    if parts.len() != 4 {
        return None;
    }
    assert(views_of(parts@)[0] == parts@[0]@);
    assert(views_of(parts@)[1] == parts@[1]@);
    assert(views_of(parts@)[2] == parts@[2]@);
    assert(views_of(parts@)[3] == parts@[3]@);
    let o0 = match parse_octet(parts[0].as_str()) {
        Some(v) => v,
        None => { return None; },
    };
    let o1 = match parse_octet(parts[1].as_str()) {
        Some(v) => v,
        None => { return None; },
    };
    let o2 = match parse_octet(parts[2].as_str()) {
        Some(v) => v,
        None => { return None; },
    };
    let o3 = match parse_octet(parts[3].as_str()) {
        Some(v) => v,
        None => { return None; },
    };
    Some((o0 as u32) * 0x1000000 + (o1 as u32) * 0x10000 + (o2 as u32) * 0x100 + (o3 as u32))
}

/// The dotted-quad text of an IPv4 address.
pub open spec fn spec_ipv4_text(a: u32) -> Seq<char> {
    spec_dec((a as nat) / 0x1000000) + seq!['.'] + spec_dec(((a as nat) / 0x10000) % 0x100)
        + seq!['.'] + spec_dec(((a as nat) / 0x100) % 0x100) + seq!['.'] + spec_dec(
        (a as nat) % 0x100,
    )
}

/// Renders an IPv4 address as its dotted quad.
pub fn ipv4_to_string(a: u32) -> (r: String)
    ensures
        r@ == spec_ipv4_text(a),
{
    let o0 = a / 0x1000000;
    let o1 = (a / 0x10000) % 0x100;
    let o2 = (a / 0x100) % 0x100;
    let o3 = a % 0x100;
    let mut r = u64_to_string(o0 as u64);
    r.append(".");
    let t1 = u64_to_string(o1 as u64);
    r.append(t1.as_str());
    r.append(".");
    let t2 = u64_to_string(o2 as u64);
    r.append(t2.as_str());
    r.append(".");
    let t3 = u64_to_string(o3 as u64);
    r.append(t3.as_str());
    proof {
        reveal_strlit(".");
        assert("."@ =~= seq!['.']);
        assert(r@ =~= spec_ipv4_text(a));
    }
    r
}

/// A colon-separated IPv6 group: one to four lowercase hex digits.
pub open spec fn spec_is_group(s: Seq<char>) -> bool {
    1 <= s.len() <= 4 && spec_all_hex(s)
}

/// The value of a sequence of groups, most significant first.
pub open spec fn spec_groups_val(parts: Seq<Seq<char>>) -> int
    decreases parts.len(),
{
    if parts.len() == 0 {
        0
    } else {
        spec_groups_val(parts.drop_last()) * 0x10000 + spec_hex_val(parts.last())
    }
}

/// What parsing eight-group IPv6 text yields.
pub open spec fn spec_parse_ipv6(s: Seq<char>) -> Option<u128> {
    let parts = spec_split(s, ':');
    if parts.len() == 8 && (forall|i: int| 0 <= i < 8 ==> spec_is_group(#[trigger] parts[i])) {
        Some(spec_groups_val(parts) as u128)
    } else {
        None
    }
}

/// Checks one IPv6 group and yields its value.
fn parse_group(t: &str) -> (r: Option<u16>)
    ensures
        r is Some <==> spec_is_group(t@),
        r is Some ==> r.unwrap() == spec_hex_val(t@),
{
    let n: usize = t.unicode_len();
    if n < 1 || n > 4 {
        return None;
    }
    let mut acc: u32 = 0;
    for i in 0..n
        invariant
            n == t@.len(),
            n <= 4,
            spec_all_hex(t@.take(i as int)),
            acc == spec_hex_val(t@.take(i as int)),
            acc < 0x10000,
    {
        let c = t.get_char(i);
        assert(t@.take(i + 1).drop_last() =~= t@.take(i as int));
        assert(t@.take(i + 1).last() == t@[i as int]);
        if !is_hex_digit(c) {
            assert(!spec_is_hex_digit(t@[i as int]));
            return None;
        }
        let dv: u32 = if c <= '9' {
            ((c as u8) - 0x30) as u32
        } else {
            ((c as u8) - 0x57) as u32
        };
        assert(dv == spec_hex_digit_val(c));
        proof {
            assert(spec_all_hex(t@.take(i + 1))) by {
                assert(forall|j: int|
                    0 <= j < i + 1 ==> t@.take(i + 1)[j] == if j < i {
                        t@.take(i as int)[j]
                    } else {
                        t@[i as int]
                    });
            }
            lemma_hex_val_width(t@.take(i + 1));
        }
        acc = acc * 16 + dv;
    }
    assert(t@.take(n as int) =~= t@);
    Some(acc as u16)
}

/// A hex string of at most four digits stays under sixteen bits.
proof fn lemma_hex_val_width(s: Seq<char>)
    requires
        spec_all_hex(s),
    ensures
        spec_hex_val(s) >= 0,
        s.len() <= 1 ==> spec_hex_val(s) < 0x10,
        s.len() <= 2 ==> spec_hex_val(s) < 0x100,
        s.len() <= 3 ==> spec_hex_val(s) < 0x1000,
        s.len() <= 4 ==> spec_hex_val(s) < 0x10000,
    decreases s.len(),
{
    if s.len() > 0 {
        assert(spec_all_hex(s.drop_last()));
        lemma_hex_val_width(s.drop_last());
        assert(0 <= spec_hex_digit_val(s.last()) < 16);
    }
}

/// Parses eight-group IPv6 text, exactly as `spec_parse_ipv6` says.
pub fn parse_ipv6(s: &str) -> (r: Option<u128>)
    ensures
        r == spec_parse_ipv6(s@),
{
    let parts = split_char(s, ':');
    proof {
        assert(views_of(parts@).len() == parts@.len());
    }
    if parts.len() != 8 {
        return None;
    }
    let mut acc: u128 = 0;
    let ghost vp = views_of(parts@);
    proof {
        vstd::arithmetic::power2::lemma2_to64();
        assert(vp.take(0) =~= Seq::<Seq<char>>::empty());
    }
    for k in 0..8usize
        invariant
            parts@.len() == 8,
            vp == views_of(parts@),
            vp == spec_split(s@, ':'),
            forall|i: int| 0 <= i < k ==> spec_is_group(#[trigger] vp[i]),
            acc == spec_groups_val(vp.take(k as int)),
            acc < pow2((16 * k) as nat),
    {
        assert(vp[k as int] == parts@[k as int]@);
        let g = match parse_group(parts[k].as_str()) {
            Some(v) => v,
            None => {
                assert(!spec_is_group(vp[k as int]));
                return None;
            },
        };
        proof {
            assert(vp.take(k + 1).drop_last() =~= vp.take(k as int));
            assert(vp.take(k + 1).last() == vp[k as int]);
            vstd::arithmetic::power2::lemma2_to64();
            vstd::arithmetic::power2::lemma2_to64_rest();
            vstd::arithmetic::power2::lemma_pow2_adds((16 * k) as nat, 16);
            assert(acc * 0x10000 + g < pow2((16 * (k + 1)) as nat)) by (nonlinear_arith)
                requires
                    acc < pow2((16 * k) as nat),
                    g < 0x10000,
                    pow2((16 * (k + 1)) as nat) == pow2((16 * k) as nat) * pow2(16),
                    pow2(16) == 0x10000,
            {}
            vstd::arithmetic::power2::lemma_pow2_adds(64, 64);
            assert(pow2(128) == 0x100000000000000000000000000000000);
            if 16 * (k + 1) < 128 {
                vstd::arithmetic::power2::lemma_pow2_strictly_increases((16 * (k + 1)) as nat, 128);
            }
        }
        acc = acc * 0x10000 + (g as u128);
    }
    proof {
        assert(vp.take(8) =~= vp);
    }
    Some(acc)
}

/// The eight-group lowercase hex text of an IPv6 address.
pub open spec fn spec_ipv6_text(a: u128) -> Seq<char> {
    spec_hex(((a as nat) / pow2(112)) % 0x10000) + seq![':'] + spec_hex(
        ((a as nat) / pow2(96)) % 0x10000,
    ) + seq![':'] + spec_hex(((a as nat) / pow2(80)) % 0x10000) + seq![':'] + spec_hex(
        ((a as nat) / pow2(64)) % 0x10000,
    ) + seq![':'] + spec_hex(((a as nat) / pow2(48)) % 0x10000) + seq![':'] + spec_hex(
        ((a as nat) / pow2(32)) % 0x10000,
    ) + seq![':'] + spec_hex(((a as nat) / pow2(16)) % 0x10000) + seq![':'] + spec_hex(
        (a as nat) % 0x10000,
    )
}

/// Renders an IPv6 address as eight lowercase hex groups.
pub fn ipv6_to_string(a: u128) -> (r: String)
    ensures
        r@ == spec_ipv6_text(a),
{
    proof {
        vstd::arithmetic::power2::lemma2_to64();
        vstd::arithmetic::power2::lemma2_to64_rest();
        vstd::arithmetic::power2::lemma_pow2_adds(64, 48);
        vstd::arithmetic::power2::lemma_pow2_adds(64, 32);
        vstd::arithmetic::power2::lemma_pow2_adds(64, 16);
        vstd::arithmetic::power2::lemma_pow2_adds(64, 64);
    }
    let g0 = ((a / 0x10000000000000000000000000000) % 0x10000) as u16;
    let g1 = ((a / 0x1000000000000000000000000) % 0x10000) as u16;
    let g2 = ((a / 0x100000000000000000000) % 0x10000) as u16;
    let g3 = ((a / 0x10000000000000000) % 0x10000) as u16;
    let g4 = ((a / 0x1000000000000) % 0x10000) as u16;
    let g5 = ((a / 0x100000000) % 0x10000) as u16;
    let g6 = ((a / 0x10000) % 0x10000) as u16;
    let g7 = (a % 0x10000) as u16;
    let mut r = u16_to_hex(g0);
    let t1 = u16_to_hex(g1);
    let t2 = u16_to_hex(g2);
    let t3 = u16_to_hex(g3);
    let t4 = u16_to_hex(g4);
    let t5 = u16_to_hex(g5);
    let t6 = u16_to_hex(g6);
    let t7 = u16_to_hex(g7);
    r.append(":");
    r.append(t1.as_str());
    r.append(":");
    r.append(t2.as_str());
    r.append(":");
    r.append(t3.as_str());
    r.append(":");
    r.append(t4.as_str());
    r.append(":");
    r.append(t5.as_str());
    r.append(":");
    r.append(t6.as_str());
    r.append(":");
    r.append(t7.as_str());
    proof {
        reveal_strlit(":");
        assert(":"@ =~= seq![':']);
        assert(r@ =~= spec_ipv6_text(a));
    }
    r
}

/// An IPv4 subnet in masked form. The network address is a multiple of the
/// block size and the whole block fits the address space.
#[derive(Debug, Clone, Copy, PartialEq, Eq, Structural)]
pub struct SubnetV4 {
    pub net: u32,
    pub prefix: u8,
}

impl SubnetV4 {
    /// How many addresses the subnet spans.
    pub open spec fn block(self) -> int {
        pow2((32 - self.prefix) as nat) as int
    }

    /// The masked-network invariant.
    pub open spec fn wf(self) -> bool {
        self.prefix <= 32 && self.net as int % self.block() == 0 && self.net as int + self.block()
            <= 0x100000000
    }

    /// The subnet's last address, its broadcast address.
    pub open spec fn bcast(self) -> int {
        self.net as int + self.block() - 1
    }

    /// The first usable host address: the network address is reserved except
    /// in point-to-point and host subnets.
    pub open spec fn host_lo(self) -> int {
        if self.prefix <= 30 {
            self.net as int + 1
        } else {
            self.net as int
        }
    }

    /// The last usable host address: the broadcast address is reserved except
    /// in point-to-point and host subnets.
    pub open spec fn host_hi(self) -> int {
        if self.prefix <= 30 {
            self.bcast() - 1
        } else {
            self.bcast()
        }
    }

    /// Whether an address is a usable host address of this subnet.
    pub open spec fn is_host(self, a: int) -> bool {
        self.host_lo() <= a <= self.host_hi()
    }
}

/// An IPv6 subnet in masked form. Every address of the block counts as a
/// host address; IPv6 has no broadcast address.
#[derive(Debug, Clone, Copy, PartialEq, Eq, Structural)]
pub struct SubnetV6 {
    pub net: u128,
    pub prefix: u8,
}

impl SubnetV6 {
    /// How many addresses the subnet spans.
    pub open spec fn block(self) -> int {
        pow2((128 - self.prefix) as nat) as int
    }

    /// The masked-network invariant.
    pub open spec fn wf(self) -> bool {
        self.prefix <= 128 && self.net as int % self.block() == 0 && self.net as int + self.block()
            <= pow2(128)
    }

    /// The first host address; the network address itself counts.
    pub open spec fn host_lo(self) -> int {
        self.net as int
    }

    /// The last host address of the block.
    pub open spec fn host_hi(self) -> int {
        self.net as int + self.block() - 1
    }

    /// Whether an address is a host address of this subnet.
    pub open spec fn is_host(self, a: int) -> bool {
        self.host_lo() <= a <= self.host_hi()
    }
}

/// The all-ones mask of the given width.
fn mask32(bits: u8) -> (m: u32)
    requires
        bits <= 32,
    ensures
        m as int == pow2(bits as nat) - 1,
{
    proof {
        vstd::arithmetic::power2::lemma2_to64();
    }
    let mut m: u32 = 0;
    let mut k: u8 = 0;
    while k < bits
        invariant
            k <= bits <= 32,
            m as int == pow2(k as nat) - 1,
        decreases bits - k,
    {
        proof {
            vstd::arithmetic::power2::lemma_pow2_adds(k as nat, 1);
            vstd::arithmetic::power2::lemma2_to64();
            if (k + 1) < 32 {
                vstd::arithmetic::power2::lemma_pow2_strictly_increases((k + 1) as nat, 32);
            }
            vstd::arithmetic::power2::lemma2_to64_rest();
        }
        m = m * 2 + 1;
        k += 1;
    }
    m
}

/// The all-ones mask of the given width.
fn mask128(bits: u8) -> (m: u128)
    requires
        bits <= 128,
    ensures
        m as int == pow2(bits as nat) - 1,
{
    proof {
        vstd::arithmetic::power2::lemma2_to64();
    }
    let mut m: u128 = 0;
    let mut k: u8 = 0;
    while k < bits
        invariant
            k <= bits <= 128,
            m as int == pow2(k as nat) - 1,
        decreases bits - k,
    {
        proof {
            vstd::arithmetic::power2::lemma_pow2_adds(k as nat, 1);
            vstd::arithmetic::power2::lemma2_to64();
            vstd::arithmetic::power2::lemma2_to64_rest();
            vstd::arithmetic::power2::lemma_pow2_adds(64, 64);
            if (k + 1) < 128 {
                vstd::arithmetic::power2::lemma_pow2_strictly_increases((k + 1) as nat, 128);
            }
        }
        m = m * 2 + 1;
        k += 1;
    }
    m
}

/// Masking an address to a block leaves a whole block inside the space.
proof fn lemma_mask_wf(raw: int, bs: int, total: int)
    requires
        bs > 0,
        0 <= raw < total,
        total % bs == 0,
    ensures
        0 <= raw % bs <= raw,
        (raw - raw % bs) % bs == 0,
        raw - raw % bs + bs <= total,
{
    vstd::arithmetic::div_mod::lemma_fundamental_div_mod(raw, bs);
    vstd::arithmetic::div_mod::lemma_fundamental_div_mod(total, bs);
    let q = raw / bs;
    let rm = raw % bs;
    let m = total / bs;
    assert(0 <= rm < bs) by (nonlinear_arith)
        requires
            bs > 0,
            rm == raw % bs,
            raw >= 0,
    {}
    assert(rm <= raw) by (nonlinear_arith)
        requires
            raw == bs * q + rm,
            0 <= rm < bs,
            raw >= 0,
            bs > 0,
    {}
    assert(raw - rm == bs * q);
    assert((bs * q) % bs == 0) by (nonlinear_arith)
        requires
            bs > 0,
    {}
    assert(q < m) by (nonlinear_arith)
        requires
            raw == bs * q + rm,
            total == bs * m,
            0 <= rm < bs,
            raw < total,
            bs > 0,
    {}
    assert(bs * q + bs <= bs * m) by (nonlinear_arith)
        requires
            q < m,
            bs > 0,
    {}
}

/// A prefix length: plain digits whose value stays within the family's bound.
pub open spec fn spec_parse_prefix(s: Seq<char>, maxp: int) -> Option<u8> {
    if s.len() > 0 && spec_is_digit(s[0]) && spec_parse_u64(s) is Some && spec_parse_u64(
        s,
    ).unwrap() <= maxp {
        Some(spec_parse_u64(s).unwrap() as u8)
    } else {
        None
    }
}

/// Parses a prefix length bounded by `maxp`.
pub fn parse_prefix(t: &str, maxp: u8) -> (r: Option<u8>)
    ensures
        r == spec_parse_prefix(t@, maxp as int),
{
    let n: usize = t.unicode_len();
    if n == 0 {
        return None;
    }
    if !is_digit(t.get_char(0)) {
        return None;
    }
    match parse_u64(t) {
        Some(v) => if v <= maxp as u64 {
            Some(v as u8)
        } else {
            None
        },
        None => None,
    }
}

/// What parsing `<dotted-quad>/<prefix>` yields, before masking.
pub open spec fn spec_parse_cidr_v4(s: Seq<char>) -> Option<(u32, u8)> {
    let parts = spec_split(s, '/');
    if parts.len() == 2 {
        match (spec_parse_ipv4(parts[0]), spec_parse_prefix(parts[1], 32)) {
            (Some(a), Some(p)) => Some((a, p)),
            _ => None,
        }
    } else {
        None
    }
}

/// The network address that masking an address to a prefix yields.
pub open spec fn spec_mask_net_v4(raw: u32, prefix: u8) -> int {
    raw as int - raw as int % (pow2((32 - prefix) as nat) as int)
}

/// Parses an IPv4 subnet out of CIDR text and masks it to its prefix.
pub fn parse_subnet_v4(s: &str) -> (r: Result<SubnetV4, Error>)
    ensures
        match r {
            Ok(sub) => spec_parse_cidr_v4(s@) is Some && sub.prefix == spec_parse_cidr_v4(
                s@,
            ).unwrap().1 && sub.net as int == spec_mask_net_v4(
                spec_parse_cidr_v4(s@).unwrap().0,
                sub.prefix,
            ) && sub.wf(),
            Err(e) => spec_parse_cidr_v4(s@) is None && e is InvalidConfig,
        },
{
    let parts = split_char(s, '/');
    proof {
        assert(views_of(parts@).len() == parts@.len());
    }
    if parts.len() != 2 {
        return Err(Error::InvalidConfig(s.to_owned()));
    }
    assert(views_of(parts@)[0] == parts@[0]@);
    assert(views_of(parts@)[1] == parts@[1]@);
    let raw = match parse_ipv4(parts[0].as_str()) {
        Some(a) => a,
        None => { return Err(Error::InvalidConfig(s.to_owned())); },
    };
    let p = match parse_prefix(parts[1].as_str(), 32) {
        Some(p) => p,
        None => { return Err(Error::InvalidConfig(s.to_owned())); },
    };
    let mask = mask32(32 - p);
    let bs: u64 = mask as u64 + 1;
    proof {
        vstd::arithmetic::power2::lemma_pow2_adds(p as nat, (32 - p) as nat);
        vstd::arithmetic::power2::lemma2_to64();
        vstd::arithmetic::power2::lemma2_to64_rest();
        vstd::arithmetic::power2::lemma_pow2_pos((32 - p) as nat);
        assert(pow2(32) as int % (bs as int) == 0) by (nonlinear_arith)
            requires
                pow2(32) == pow2(p as nat) * pow2((32 - p) as nat),
                bs as int == pow2((32 - p) as nat) as int,
                bs > 0,
        {}
        lemma_mask_wf(raw as int, bs as int, pow2(32) as int);
    }
    let rm: u32 = (raw as u64 % bs) as u32;
    let net: u32 = raw - rm;
    Ok(SubnetV4 { net, prefix: p })
}

/// What parsing an IPv6 subnet yields. The grammar and masking live in the
/// `ipnet` crate; the result is a function of the text alone.
pub uninterp spec fn ipv6_net_of(s: Seq<char>) -> Option<(u128, u8)>;

/// Relies on `ipnet::Ipv6Net`'s string parser — `<addr>/<prefix>` with a
/// prefix of at most 128 — and on `Ipv6Net::network`, which masks the parsed
/// address down to a multiple of the block size.
#[verifier::external_body]
fn parse_ipv6_net(s: &str) -> (r: Option<(u128, u8)>)
    ensures
        r == ipv6_net_of(s@),
        r is Some ==> r.unwrap().1 <= 128,
        r is Some ==> r.unwrap().0 as int % (pow2((128 - r.unwrap().1) as nat) as int) == 0,
{
    match s.parse::<ipnet::Ipv6Net>() {
        Ok(n) => Some((u128::from(n.network()), n.prefix_len())),
        Err(_) => None,
    }
}

/// Parses an IPv6 subnet out of CIDR text, in masked form.
pub fn parse_subnet_v6(s: &str) -> (r: Result<SubnetV6, Error>)
    ensures
        match r {
            Ok(sub) => ipv6_net_of(s@) is Some && sub.net == ipv6_net_of(s@).unwrap().0
                && sub.prefix == ipv6_net_of(s@).unwrap().1 && sub.wf(),
            Err(e) => ipv6_net_of(s@) is None && e is InvalidConfig,
        },
{
    match parse_ipv6_net(s) {
        Some((net, p)) => {
            proof {
                vstd::arithmetic::power2::lemma_pow2_adds(p as nat, (128 - p) as nat);
                vstd::arithmetic::power2::lemma_pow2_pos((128 - p) as nat);
                vstd::arithmetic::power2::lemma2_to64();
                vstd::arithmetic::power2::lemma2_to64_rest();
                vstd::arithmetic::power2::lemma_pow2_adds(64, 64);
                let bs = pow2((128 - p) as nat) as int;
                assert(pow2(128) as int % bs == 0) by (nonlinear_arith)
                    requires
                        pow2(128) == pow2(p as nat) * pow2((128 - p) as nat),
                        bs == pow2((128 - p) as nat) as int,
                        bs > 0,
                {}
                assert((net as int) < pow2(128));
                lemma_mask_wf(net as int, bs, pow2(128) as int);
                assert(net as int % bs == 0);
                assert(net as int - net as int % bs == net as int);
            }
            Ok(SubnetV6 { net, prefix: p })
        },
        None => Err(Error::InvalidConfig(s.to_owned())),
    }
}

/// The usable host range of an IPv4 subnet, both ends inclusive.
pub fn host_range_v4(s: &SubnetV4) -> (r: (u32, u32))
    requires
        s.wf(),
    ensures
        r.0 as int == s.host_lo(),
        r.1 as int == s.host_hi(),
        r.0 <= r.1,
{
    proof {
        lemma_host_range_v4(*s);
    }
    let mask = mask32(32 - s.prefix);
    let bc: u32 = s.net + mask;
    if s.prefix <= 30 {
        (s.net + 1, bc - 1)
    } else {
        (s.net, bc)
    }
}

/// An IPv4 subnet always offers at least one host address.
pub proof fn lemma_host_range_v4(s: SubnetV4)
    requires
        s.wf(),
    ensures
        0 <= s.host_lo() <= s.host_hi() <= u32::MAX,
        s.net as int <= s.host_lo(),
        s.host_hi() <= s.bcast(),
{
    vstd::arithmetic::power2::lemma2_to64();
    if s.prefix <= 30 {
        if (32 - s.prefix) > 2 {
            vstd::arithmetic::power2::lemma_pow2_strictly_increases(2, (32 - s.prefix) as nat);
        }
        assert(s.block() >= 4);
    }
}

/// The host range of an IPv6 subnet, both ends inclusive.
pub fn host_range_v6(s: &SubnetV6) -> (r: (u128, u128))
    requires
        s.wf(),
    ensures
        r.0 as int == s.host_lo(),
        r.1 as int == s.host_hi(),
        r.0 <= r.1,
{
    proof {
        lemma_host_range_v6(*s);
        vstd::arithmetic::power2::lemma2_to64_rest();
        vstd::arithmetic::power2::lemma_pow2_adds(64, 64);
        assert(pow2(128) == u128::MAX + 1);
    }
    let mask = mask128(128 - s.prefix);
    let hi: u128 = s.net + mask;
    (s.net, hi)
}

/// An IPv6 subnet always offers at least one host address.
pub proof fn lemma_host_range_v6(s: SubnetV6)
    requires
        s.wf(),
    ensures
        0 <= s.host_lo() <= s.host_hi() < pow2(128),
{
    vstd::arithmetic::power2::lemma_pow2_pos((128 - s.prefix) as nat);
}

/// Decimal numerals are digit strings of the right length and value.
proof fn lemma_dec_shape(n: nat)
    ensures
        spec_dec(n).len() >= 1,
        spec_all_digits(spec_dec(n)),
        spec_dec(n)[0] == '0' ==> n == 0,
        spec_dec_val(spec_dec(n)) == n,
        n < 10 ==> spec_dec(n).len() == 1,
        n < 100 ==> spec_dec(n).len() <= 2,
        n < 1000 ==> spec_dec(n).len() <= 3,
    decreases n,
{
    if n < 10 {
        assert((((n + 0x30) as u8) as char) as int == n + 0x30);
        assert(spec_dec(n) =~= seq![spec_digit_char(n as int)]);
        assert(spec_dec(n).drop_last() =~= Seq::<char>::empty());
        assert(spec_dec(n).last() == spec_digit_char(n as int));
        assert(spec_digit_val(spec_digit_char(n as int)) == n);
        assert(spec_dec_val(spec_dec(n)) == spec_dec_val(spec_dec(n).drop_last()) * 10
            + spec_digit_val(spec_dec(n).last()));
        assert(spec_dec_val(Seq::<char>::empty()) == 0);
    } else {
        lemma_dec_shape(n / 10);
        assert(((((n % 10) + 0x30) as u8) as char) as int == (n % 10) + 0x30);
        assert(spec_dec(n).drop_last() =~= spec_dec(n / 10));
        assert(spec_dec(n).last() == spec_digit_char((n % 10) as int));
        assert(spec_digit_val(spec_digit_char((n % 10) as int)) == n % 10);
        assert(spec_dec_val(spec_dec(n)) == spec_dec_val(spec_dec(n / 10)) * 10 + spec_digit_val(
            spec_dec(n).last(),
        ));
        assert((n / 10) * 10 + n % 10 == n);
        assert(spec_dec(n)[0] == spec_dec(n / 10)[0]);
        assert(spec_all_digits(spec_dec(n))) by {
            assert(forall|i: int|
                0 <= i < spec_dec(n).len() ==> spec_dec(n)[i] == if i < spec_dec(n).len() - 1 {
                    spec_dec(n / 10)[i]
                } else {
                    spec_digit_char((n % 10) as int)
                });
        }
    }
}

/// Text free of the separator splits to itself alone.
proof fn lemma_split_no_sep(t: Seq<char>, sep: char)
    requires
        forall|i: int| 0 <= i < t.len() ==> t[i] != sep,
    ensures
        spec_split(t, sep) == seq![t],
    decreases t.len(),
{
    if t.len() == 0 {
        assert(t =~= Seq::<char>::empty());
        assert(spec_split(t, sep) =~= seq![t]);
    } else {
        assert(forall|i: int| 0 <= i < t.drop_last().len() ==> t.drop_last()[i] != sep);
        lemma_split_no_sep(t.drop_last(), sep);
        assert(t.last() != sep);
        assert(spec_split(t, sep) =~= seq![t.drop_last().push(t.last())]);
        assert(t.drop_last().push(t.last()) =~= t);
    }
}

/// Appending a separator and a separator-free piece appends one split piece.
proof fn lemma_split_append(s: Seq<char>, sep: char, t: Seq<char>)
    requires
        forall|i: int| 0 <= i < t.len() ==> t[i] != sep,
    ensures
        spec_split(s + seq![sep] + t, sep) == spec_split(s, sep).push(t),
    decreases t.len(),
{
    crate::text::lemma_split_len(s, sep);
    if t.len() == 0 {
        assert((s + seq![sep] + t) =~= s.push(sep));
        assert(s.push(sep).drop_last() =~= s);
        assert(spec_split(s + seq![sep] + t, sep) =~= spec_split(s, sep).push(
            Seq::<char>::empty(),
        ));
        assert(t =~= Seq::<char>::empty());
    } else {
        let w = s + seq![sep] + t;
        assert(w.last() == t.last());
        assert(w.drop_last() =~= s + seq![sep] + t.drop_last());
        assert(forall|i: int| 0 <= i < t.drop_last().len() ==> t.drop_last()[i] != sep);
        lemma_split_append(s, sep, t.drop_last());
        let r = spec_split(w.drop_last(), sep);
        assert(r == spec_split(s, sep).push(t.drop_last()));
        assert(r.last() == t.drop_last());
        assert(spec_split(w, sep) == r.update(r.len() - 1, r.last().push(w.last())));
        assert(r.update(r.len() - 1, t.drop_last().push(t.last())) =~= spec_split(s, sep).push(
            t.drop_last().push(t.last()),
        ));
        assert(t.drop_last().push(t.last()) =~= t);
    }
}

/// The dotted-quad text of an address parses back to that very address: what
/// the artifact writer renders, the allocator's reader recovers.
pub proof fn lemma_ipv4_round_trip(a: u32)
    ensures
        spec_parse_ipv4(spec_ipv4_text(a)) == Some(a),
{
    let o1 = (a as nat) / 0x1000000;
    let o2 = ((a as nat) / 0x10000) % 0x100;
    let o3 = ((a as nat) / 0x100) % 0x100;
    let o4 = (a as nat) % 0x100;
    lemma_dec_shape(o1);
    lemma_dec_shape(o2);
    lemma_dec_shape(o3);
    lemma_dec_shape(o4);
    let d1 = spec_dec(o1);
    let d2 = spec_dec(o2);
    let d3 = spec_dec(o3);
    let d4 = spec_dec(o4);
    assert(forall|i: int| 0 <= i < d1.len() ==> d1[i] != '.');
    assert(forall|i: int| 0 <= i < d2.len() ==> d2[i] != '.');
    assert(forall|i: int| 0 <= i < d3.len() ==> d3[i] != '.');
    assert(forall|i: int| 0 <= i < d4.len() ==> d4[i] != '.');
    lemma_split_no_sep(d1, '.');
    lemma_split_append(d1, '.', d2);
    lemma_split_append(d1 + seq!['.'] + d2, '.', d3);
    lemma_split_append((d1 + seq!['.'] + d2) + seq!['.'] + d3, '.', d4);
    assert(spec_ipv4_text(a) =~= ((d1 + seq!['.'] + d2) + seq!['.'] + d3) + seq!['.'] + d4);
    let parts = spec_split(spec_ipv4_text(a), '.');
    assert(parts =~= seq![d1, d2, d3, d4]);
    assert(o1 * 0x1000000 + o2 * 0x10000 + o3 * 0x100 + o4 == a) by {
        assert((a / 0x1000000) * 0x1000000 + ((a / 0x10000) % 0x100) * 0x10000 + ((a / 0x100)
            % 0x100) * 0x100 + (a % 0x100) == a) by (bit_vector);
    }
}

/// Hex numerals are hex-digit strings of the right length and value.
proof fn lemma_hex_shape(n: nat)
    ensures
        spec_hex(n).len() >= 1,
        spec_all_hex(spec_hex(n)),
        spec_hex_val(spec_hex(n)) == n,
        n < 0x10 ==> spec_hex(n).len() == 1,
        n < 0x100 ==> spec_hex(n).len() <= 2,
        n < 0x1000 ==> spec_hex(n).len() <= 3,
        n < 0x10000 ==> spec_hex(n).len() <= 4,
    decreases n,
{
    if n < 16 {
        if n < 10 {
            assert((((n + 0x30) as u8) as char) as int == n + 0x30);
        } else {
            assert((((n + 0x57) as u8) as char) as int == n + 0x57);
        }
        assert(spec_hex(n) =~= seq![spec_hex_digit_char(n as int)]);
        assert(spec_hex(n).drop_last() =~= Seq::<char>::empty());
        assert(spec_hex(n).last() == spec_hex_digit_char(n as int));
        assert(spec_hex_digit_val(spec_hex_digit_char(n as int)) == n);
        assert(spec_hex_val(spec_hex(n)) == spec_hex_val(spec_hex(n).drop_last()) * 16
            + spec_hex_digit_val(spec_hex(n).last()));
        assert(spec_hex_val(Seq::<char>::empty()) == 0);
    } else {
        lemma_hex_shape(n / 16);
        if n % 16 < 10 {
            assert(((((n % 16) + 0x30) as u8) as char) as int == (n % 16) + 0x30);
        } else {
            assert(((((n % 16) + 0x57) as u8) as char) as int == (n % 16) + 0x57);
        }
        assert(spec_hex(n).drop_last() =~= spec_hex(n / 16));
        assert(spec_hex(n).last() == spec_hex_digit_char((n % 16) as int));
        assert(spec_hex_digit_val(spec_hex_digit_char((n % 16) as int)) == n % 16);
        assert(spec_hex_val(spec_hex(n)) == spec_hex_val(spec_hex(n / 16)) * 16
            + spec_hex_digit_val(spec_hex(n).last()));
        assert((n / 16) * 16 + n % 16 == n);
        assert(spec_all_hex(spec_hex(n))) by {
            assert(forall|i: int|
                0 <= i < spec_hex(n).len() ==> spec_hex(n)[i] == if i < spec_hex(n).len() - 1 {
                    spec_hex(n / 16)[i]
                } else {
                    spec_hex_digit_char((n % 16) as int)
                });
        }
    }
}

/// The eight-group text of an address parses back to that very address.
#[verifier::rlimit(60)]
pub proof fn lemma_ipv6_round_trip(a: u128)
    ensures
        spec_parse_ipv6(spec_ipv6_text(a)) == Some(a),
{
    vstd::arithmetic::power2::lemma2_to64();
    vstd::arithmetic::power2::lemma2_to64_rest();
    vstd::arithmetic::power2::lemma_pow2_adds(64, 48);
    vstd::arithmetic::power2::lemma_pow2_adds(64, 32);
    vstd::arithmetic::power2::lemma_pow2_adds(64, 16);
    let g0 = ((a as nat) / pow2(112)) % 0x10000;
    let g1 = ((a as nat) / pow2(96)) % 0x10000;
    let g2 = ((a as nat) / pow2(80)) % 0x10000;
    let g3 = ((a as nat) / pow2(64)) % 0x10000;
    let g4 = ((a as nat) / pow2(48)) % 0x10000;
    let g5 = ((a as nat) / pow2(32)) % 0x10000;
    let g6 = ((a as nat) / pow2(16)) % 0x10000;
    let g7 = (a as nat) % 0x10000;
    lemma_hex_shape(g0);
    lemma_hex_shape(g1);
    lemma_hex_shape(g2);
    lemma_hex_shape(g3);
    lemma_hex_shape(g4);
    lemma_hex_shape(g5);
    lemma_hex_shape(g6);
    lemma_hex_shape(g7);
    let h0 = spec_hex(g0);
    let h1 = spec_hex(g1);
    let h2 = spec_hex(g2);
    let h3 = spec_hex(g3);
    let h4 = spec_hex(g4);
    let h5 = spec_hex(g5);
    let h6 = spec_hex(g6);
    let h7 = spec_hex(g7);
    assert(forall|i: int| 0 <= i < h1.len() ==> h1[i] != ':');
    assert(forall|i: int| 0 <= i < h2.len() ==> h2[i] != ':');
    assert(forall|i: int| 0 <= i < h3.len() ==> h3[i] != ':');
    assert(forall|i: int| 0 <= i < h4.len() ==> h4[i] != ':');
    assert(forall|i: int| 0 <= i < h5.len() ==> h5[i] != ':');
    assert(forall|i: int| 0 <= i < h6.len() ==> h6[i] != ':');
    assert(forall|i: int| 0 <= i < h7.len() ==> h7[i] != ':');
    lemma_split_no_sep(h0, ':');
    let s1 = h0 + seq![':'] + h1;
    lemma_split_append(h0, ':', h1);
    let s2 = s1 + seq![':'] + h2;
    lemma_split_append(s1, ':', h2);
    let s3 = s2 + seq![':'] + h3;
    lemma_split_append(s2, ':', h3);
    let s4 = s3 + seq![':'] + h4;
    lemma_split_append(s3, ':', h4);
    let s5 = s4 + seq![':'] + h5;
    lemma_split_append(s4, ':', h5);
    let s6 = s5 + seq![':'] + h6;
    lemma_split_append(s5, ':', h6);
    let s7 = s6 + seq![':'] + h7;
    lemma_split_append(s6, ':', h7);
    assert(spec_ipv6_text(a) =~= s7);
    let parts = spec_split(spec_ipv6_text(a), ':');
    assert(parts =~= seq![h0, h1, h2, h3, h4, h5, h6, h7]);
    assert(forall|i: int| 0 <= i < 8 ==> spec_is_group(#[trigger] parts[i]));
    assert(parts.drop_last() =~= seq![h0, h1, h2, h3, h4, h5, h6]);
    assert(seq![h0, h1, h2, h3, h4, h5, h6].drop_last() =~= seq![h0, h1, h2, h3, h4, h5]);
    assert(seq![h0, h1, h2, h3, h4, h5].drop_last() =~= seq![h0, h1, h2, h3, h4]);
    assert(seq![h0, h1, h2, h3, h4].drop_last() =~= seq![h0, h1, h2, h3]);
    assert(seq![h0, h1, h2, h3].drop_last() =~= seq![h0, h1, h2]);
    assert(seq![h0, h1, h2].drop_last() =~= seq![h0, h1]);
    assert(seq![h0, h1].drop_last() =~= seq![h0]);
    assert(seq![h0].drop_last() =~= Seq::<Seq<char>>::empty());
    assert(spec_groups_val(Seq::<Seq<char>>::empty()) == 0);
    assert(spec_groups_val(seq![h0]) == g0);
    assert(spec_groups_val(seq![h0, h1]) == g0 * 0x10000 + g1);
    assert(spec_groups_val(seq![h0, h1, h2]) == (g0 * 0x10000 + g1) * 0x10000 + g2);
    assert(spec_groups_val(seq![h0, h1, h2, h3]) == ((g0 * 0x10000 + g1) * 0x10000 + g2) * 0x10000
        + g3);
    assert(spec_groups_val(seq![h0, h1, h2, h3, h4]) == (((g0 * 0x10000 + g1) * 0x10000 + g2)
        * 0x10000 + g3) * 0x10000 + g4);
    assert(spec_groups_val(seq![h0, h1, h2, h3, h4, h5]) == ((((g0 * 0x10000 + g1) * 0x10000 + g2)
        * 0x10000 + g3) * 0x10000 + g4) * 0x10000 + g5);
    assert(spec_groups_val(seq![h0, h1, h2, h3, h4, h5, h6]) == (((((g0 * 0x10000 + g1) * 0x10000
        + g2) * 0x10000 + g3) * 0x10000 + g4) * 0x10000 + g5) * 0x10000 + g6);
    assert(spec_groups_val(parts) == ((((((g0 * 0x10000 + g1) * 0x10000 + g2) * 0x10000 + g3)
        * 0x10000 + g4) * 0x10000 + g5) * 0x10000 + g6) * 0x10000 + g7);
    assert(((((((g0 * 0x10000 + g1) * 0x10000 + g2) * 0x10000 + g3) * 0x10000 + g4) * 0x10000
        + g5) * 0x10000 + g6) * 0x10000 + g7 == a) by {
        assert(((((((((a / 0x10000000000000000000000000000) % 0x10000) * 0x10000 + ((a
            / 0x1000000000000000000000000) % 0x10000)) * 0x10000 + ((a
            / 0x100000000000000000000) % 0x10000)) * 0x10000 + ((a / 0x10000000000000000)
            % 0x10000)) * 0x10000 + ((a / 0x1000000000000) % 0x10000)) * 0x10000 + ((a
            / 0x100000000) % 0x10000)) * 0x10000 + ((a / 0x10000) % 0x10000)) * 0x10000 + (a
            % 0x10000) == a) by (bit_vector);
    }
}

/// The address literal in front of an optional `/len` suffix.
pub open spec fn spec_cidr_addr_part(item: Seq<char>) -> Seq<char> {
    spec_split(item, '/')[0]
}

/// Strips the `/len` suffix off an address item.
pub fn cidr_addr_part(item: &str) -> (r: String)
    ensures
        r@ == spec_cidr_addr_part(item@),
{
    let parts = split_char(item, '/');
    proof {
        crate::text::lemma_split_len(item@, '/');
        assert(views_of(parts@)[0] == parts@[0]@);
    }
    parts[0].clone()
}

} // verus!
