//! Address allocation: reconstructing the set of already-assigned addresses
//! from generated client configurations, and handing the next free host
//! address of a subnet to each peer that does not have one yet.

use vstd::prelude::*;
use vstd::string::StrSliceExecFns;
use vstd::string::StringExecFns;

use crate::addr::{
    cidr_addr_part, parse_ipv4, parse_ipv6, spec_cidr_addr_part, spec_ipv4_text, spec_ipv6_text,
    spec_parse_ipv4, spec_parse_ipv6, SubnetV4, SubnetV6, host_range_v4, host_range_v6,
    lemma_host_range_v4,
};
use crate::errors::Error;
use crate::text::{
    contains_u128, contains_u32, spec_clean_list, spec_dec, spec_split, spec_trim, split_char,
    split_items, starts_with, substring_chars, trim, u64_to_string, views_of,
};

verus! {

/// What the `Address` line of one configuration line yields, if this is that
/// line: the text after the first `=`, split at commas, trimmed, empty items
/// dropped. A line whose `Address` key is not followed by exactly one `=`
/// yields nothing.
pub open spec fn spec_line_addresses(line: Seq<char>) -> Option<Seq<Seq<char>>> {
    let t = spec_trim(line);
    if t.len() >= 7 && t.take(7) == "Address"@ {
        let parts = spec_split(t.skip(7), '=');
        if parts.len() == 2 {
            Some(spec_clean_list(spec_split(parts[1], ',')))
        } else {
            None
        }
    } else {
        None
    }
}

/// The items of the first `Address` line among the given lines.
pub open spec fn spec_extract_lines(lines: Seq<Seq<char>>) -> Seq<Seq<char>>
    decreases lines.len(),
{
    if lines.len() == 0 {
        Seq::<Seq<char>>::empty()
    } else {
        match spec_line_addresses(lines.first()) {
            Some(items) => items,
            None => spec_extract_lines(lines.drop_first()),
        }
    }
}

/// The address items of a client configuration text.
pub open spec fn spec_extract_addresses(text: Seq<char>) -> Seq<Seq<char>> {
    spec_extract_lines(spec_split(text, '\n'))
}

/// Pulls the `Address = ...` items out of a configuration text, exactly as
/// `spec_extract_addresses` says.
pub fn extract_addresses(text: &str) -> (r: Vec<String>)
    ensures
        views_of(r@) == spec_extract_addresses(text@),
{
    let lines = split_char(text, '\n');
    let ghost lv = views_of(lines@);
    let n: usize = lines.len();
    assert(lv.skip(0) =~= lv);
    for i in 0..n
        invariant
            n == lines@.len(),
            lv == views_of(lines@),
            lv == spec_split(text@, '\n'),
            spec_extract_lines(lv) == spec_extract_lines(lv.skip(i as int)),
    {
        proof {
            assert(lv[i as int] == lines@[i as int]@);
            assert(lv.skip(i as int).first() == lv[i as int]);
            assert(lv.skip(i as int).drop_first() =~= lv.skip(i + 1));
        }
        let t = trim(lines[i].as_str());
        proof {
            reveal_strlit("Address");
        }
        if starts_with(t.as_str(), "Address") {
            let tn: usize = t.as_str().unicode_len();
            let rest = substring_chars(t.as_str(), 7, tn);
            assert(rest@ =~= spec_trim(lv[i as int]).skip(7));
            let parts = split_char(rest.as_str(), '=');
            proof {
                assert(views_of(parts@).len() == parts@.len());
            }
            if parts.len() == 2 {
                assert(views_of(parts@)[1] == parts@[1]@);
                let items = split_items(parts[1].as_str(), ',');
                return items;
            }
        }
    }
    proof {
        assert(lv.skip(n as int) =~= Seq::<Seq<char>>::empty());
    }
    Vec::new()
}

/// The IPv4 address an item like `10.66.0.5/32` names, if any.
pub open spec fn spec_item_v4(item: Seq<char>) -> Option<u32> {
    spec_parse_ipv4(spec_cidr_addr_part(item))
}

/// The IPv6 address an item like `fd00:0:0:0:0:0:0:5/128` names, if any.
pub open spec fn spec_item_v6(item: Seq<char>) -> Option<u128> {
    spec_parse_ipv6(spec_cidr_addr_part(item))
}

/// The IPv4 addresses among a list of address items.
pub open spec fn spec_v4s_of_items(items: Seq<Seq<char>>) -> Seq<u32>
    decreases items.len(),
{
    if items.len() == 0 {
        Seq::<u32>::empty()
    } else {
        spec_v4s_of_items(items.drop_last()) + (match spec_item_v4(items.last()) {
            Some(a) => seq![a],
            None => Seq::<u32>::empty(),
        })
    }
}

/// The IPv6 addresses among a list of address items.
pub open spec fn spec_v6s_of_items(items: Seq<Seq<char>>) -> Seq<u128>
    decreases items.len(),
{
    if items.len() == 0 {
        Seq::<u128>::empty()
    } else {
        spec_v6s_of_items(items.drop_last()) + (match spec_item_v6(items.last()) {
            Some(a) => seq![a],
            None => Seq::<u128>::empty(),
        })
    }
}

/// Every IPv4 address assigned by any of the given configuration texts.
pub open spec fn spec_gather_v4(texts: Seq<Seq<char>>) -> Seq<u32>
    decreases texts.len(),
{
    if texts.len() == 0 {
        Seq::<u32>::empty()
    } else {
        spec_gather_v4(texts.drop_last()) + spec_v4s_of_items(spec_extract_addresses(texts.last()))
    }
}

/// Every IPv6 address assigned by any of the given configuration texts.
pub open spec fn spec_gather_v6(texts: Seq<Seq<char>>) -> Seq<u128>
    decreases texts.len(),
{
    if texts.len() == 0 {
        Seq::<u128>::empty()
    } else {
        spec_gather_v6(texts.drop_last()) + spec_v6s_of_items(spec_extract_addresses(texts.last()))
    }
}

/// Collects the IPv4 addresses assigned by existing client configurations.
pub fn gather_assigned_v4(conf_texts: &Vec<String>) -> (r: Vec<u32>)
    ensures
        r@ == spec_gather_v4(views_of(conf_texts@)),
{
    let mut out: Vec<u32> = Vec::new();
    let ghost tv = views_of(conf_texts@);
    assert(out@ =~= spec_gather_v4(tv.take(0)));
    let n: usize = conf_texts.len();
    for i in 0..n
        invariant
            n == conf_texts@.len(),
            tv == views_of(conf_texts@),
            out@ == spec_gather_v4(tv.take(i as int)),
    {
        assert(tv[i as int] == conf_texts@[i as int]@);
        let items = extract_addresses(conf_texts[i].as_str());
        let ghost iv = views_of(items@);
        let m: usize = items.len();
        assert(out@ + spec_v4s_of_items(iv.take(0)) =~= out@);
        let ghost out0 = out@;
        for j in 0..m
            invariant
                m == items@.len(),
                iv == views_of(items@),
                out@ == out0 + spec_v4s_of_items(iv.take(j as int)),
        {
            assert(iv[j as int] == items@[j as int]@);
            let part = cidr_addr_part(items[j].as_str());
            proof {
                assert(iv.take(j + 1).drop_last() =~= iv.take(j as int));
                assert(iv.take(j + 1).last() == iv[j as int]);
            }
            match parse_ipv4(part.as_str()) {
                Some(a) => {
                    out.push(a);
                    assert(out@ =~= out0 + spec_v4s_of_items(iv.take(j + 1)));
                },
                None => {
                    assert(out@ =~= out0 + spec_v4s_of_items(iv.take(j + 1)));
                },
            }
        }
        proof {
            assert(iv.take(m as int) =~= iv);
            assert(tv.take(i + 1).drop_last() =~= tv.take(i as int));
            assert(tv.take(i + 1).last() == tv[i as int]);
        }
    }
    proof {
        assert(tv.take(n as int) =~= tv);
    }
    out
}

/// Collects the IPv6 addresses assigned by existing client configurations.
pub fn gather_assigned_v6(conf_texts: &Vec<String>) -> (r: Vec<u128>)
    ensures
        r@ == spec_gather_v6(views_of(conf_texts@)),
{
    let mut out: Vec<u128> = Vec::new();
    let ghost tv = views_of(conf_texts@);
    assert(out@ =~= spec_gather_v6(tv.take(0)));
    let n: usize = conf_texts.len();
    for i in 0..n
        invariant
            n == conf_texts@.len(),
            tv == views_of(conf_texts@),
            out@ == spec_gather_v6(tv.take(i as int)),
    {
        assert(tv[i as int] == conf_texts@[i as int]@);
        let items = extract_addresses(conf_texts[i].as_str());
        let ghost iv = views_of(items@);
        let m: usize = items.len();
        assert(out@ + spec_v6s_of_items(iv.take(0)) =~= out@);
        let ghost out0 = out@;
        for j in 0..m
            invariant
                m == items@.len(),
                iv == views_of(items@),
                out@ == out0 + spec_v6s_of_items(iv.take(j as int)),
        {
            assert(iv[j as int] == items@[j as int]@);
            let part = cidr_addr_part(items[j].as_str());
            proof {
                assert(iv.take(j + 1).drop_last() =~= iv.take(j as int));
                assert(iv.take(j + 1).last() == iv[j as int]);
            }
            match parse_ipv6(part.as_str()) {
                Some(a) => {
                    out.push(a);
                    assert(out@ =~= out0 + spec_v6s_of_items(iv.take(j + 1)));
                },
                None => {
                    assert(out@ =~= out0 + spec_v6s_of_items(iv.take(j + 1)));
                },
            }
        }
        proof {
            assert(iv.take(m as int) =~= iv);
            assert(tv.take(i + 1).drop_last() =~= tv.take(i as int));
            assert(tv.take(i + 1).last() == tv[i as int]);
        }
    }
    proof {
        assert(tv.take(n as int) =~= tv);
    }
    out
}

/// The least free host address of the subnet at or above `a`, or nothing when
/// every host address from `a` on is taken.
pub open spec fn spec_next_free_v4(s: SubnetV4, used: Seq<u32>, a: int) -> Option<u32>
    decreases s.host_hi() + 1 - a,
{
    if a < s.host_lo() || a > s.host_hi() {
        None
    } else if used.contains(a as u32) {
        spec_next_free_v4(s, used, a + 1)
    } else {
        Some(a as u32)
    }
}

/// The least free host address of the subnet at or above `a`.
pub open spec fn spec_next_free_v6(s: SubnetV6, used: Seq<u128>, a: int) -> Option<u128>
    decreases s.host_hi() + 1 - a,
{
    if a < s.host_lo() || a > s.host_hi() {
        None
    } else if used.contains(a as u128) {
        spec_next_free_v6(s, used, a + 1)
    } else {
        Some(a as u128)
    }
}

/// The CIDR text of an IPv4 subnet.
pub open spec fn spec_subnet_v4_text(s: SubnetV4) -> Seq<char> {
    spec_ipv4_text(s.net) + seq!['/'] + spec_dec(s.prefix as nat)
}

/// Renders an IPv4 subnet as CIDR text.
pub fn subnet_v4_text(s: &SubnetV4) -> (r: String)
    ensures
        r@ == spec_subnet_v4_text(*s),
{
    let mut r = crate::addr::ipv4_to_string(s.net);
    r.append("/");
    let p = u64_to_string(s.prefix as u64);
    r.append(p.as_str());
    proof {
        reveal_strlit("/");
        assert("/"@ =~= seq!['/']);
        assert(r@ =~= spec_subnet_v4_text(*s));
    }
    r
}

/// The CIDR text of an IPv6 subnet.
pub open spec fn spec_subnet_v6_text(s: SubnetV6) -> Seq<char> {
    spec_ipv6_text(s.net) + seq!['/'] + spec_dec(s.prefix as nat)
}

/// Renders an IPv6 subnet as CIDR text.
pub fn subnet_v6_text(s: &SubnetV6) -> (r: String)
    ensures
        r@ == spec_subnet_v6_text(*s),
{
    let mut r = crate::addr::ipv6_to_string(s.net);
    r.append("/");
    let p = u64_to_string(s.prefix as u64);
    r.append(p.as_str());
    proof {
        reveal_strlit("/");
        assert("/"@ =~= seq!['/']);
        assert(r@ =~= spec_subnet_v6_text(*s));
    }
    r
}

/// Finds the subnet's first free host address, exactly as `spec_next_free_v4`
/// says, reporting exhaustion with the subnet's text.
pub fn next_available_v4(s: &SubnetV4, used: &Vec<u32>) -> (r: Result<u32, Error>)
    requires
        s.wf(),
    ensures
        match r {
            Ok(a) => spec_next_free_v4(*s, used@, s.host_lo()) == Some(a),
            Err(e) => spec_next_free_v4(*s, used@, s.host_lo()) is None && (e matches
                Error::AddressPoolExhausted(t) && t@ == spec_subnet_v4_text(*s)),
        },
{
    let (lo, hi) = host_range_v4(s);
    let mut a: u64 = lo as u64;
    while a <= hi as u64
        invariant
            s.wf(),
            lo as int == s.host_lo(),
            hi as int == s.host_hi(),
            lo as int <= a as int <= hi as int + 1,
            spec_next_free_v4(*s, used@, s.host_lo()) == spec_next_free_v4(*s, used@, a as int),
        ensures
            lo as int <= a as int <= hi as int + 1,
            spec_next_free_v4(*s, used@, s.host_lo()) == spec_next_free_v4(*s, used@, a as int),
            a as int <= hi as int ==> !used@.contains((a as u32)),
        decreases hi as int + 1 - a as int,
    {
        if !contains_u32(used, a as u32) {
            break;
        }
        a += 1;
    }
    if a <= hi as u64 {
        Ok(a as u32)
    } else {
        Err(Error::AddressPoolExhausted(subnet_v4_text(s)))
    }
}

/// Finds the subnet's first free host address, exactly as `spec_next_free_v6`
/// says, reporting exhaustion with the subnet's text.
pub fn next_available_v6(s: &SubnetV6, used: &Vec<u128>) -> (r: Result<u128, Error>)
    requires
        s.wf(),
    ensures
        match r {
            Ok(a) => spec_next_free_v6(*s, used@, s.host_lo()) == Some(a),
            Err(e) => spec_next_free_v6(*s, used@, s.host_lo()) is None && (e matches
                Error::AddressPoolExhausted(t) && t@ == spec_subnet_v6_text(*s)),
        },
{
    let (lo, hi) = host_range_v6(s);
    let mut a: u128 = lo;
    loop
        invariant
            s.wf(),
            lo as int == s.host_lo(),
            hi as int == s.host_hi(),
            lo <= a <= hi,
            spec_next_free_v6(*s, used@, s.host_lo()) == spec_next_free_v6(*s, used@, a as int),
        decreases hi as int - a as int,
    {
        if !contains_u128(used, a) {
            return Ok(a);
        }
        if a == hi {
            return Err(Error::AddressPoolExhausted(subnet_v6_text(s)));
        }
        a = a + 1;
    }
}

/// The planned IPv4 addresses for a row of peers: a peer that already holds
/// an address keeps it; one that does not gets the subnet's least free
/// address, with every earlier result excluded; nothing when the pool runs
/// dry.
pub open spec fn spec_plan_v4(s: SubnetV4, used: Seq<u32>, existing: Seq<Option<u32>>) -> Option<
    Seq<u32>,
>
    decreases existing.len(),
{
    if existing.len() == 0 {
        Some(Seq::<u32>::empty())
    } else {
        match spec_plan_v4(s, used, existing.drop_last()) {
            None => None,
            Some(pre) => match existing.last() {
                Some(a) => Some(pre.push(a)),
                None => match spec_next_free_v4(s, used + pre, s.host_lo()) {
                    Some(a) => Some(pre.push(a)),
                    None => None,
                },
            },
        }
    }
}

/// The planned IPv6 addresses for a row of peers, as `spec_plan_v4` but over
/// the IPv6 subnet.
pub open spec fn spec_plan_v6(s: SubnetV6, used: Seq<u128>, existing: Seq<Option<u128>>) -> Option<
    Seq<u128>,
>
    decreases existing.len(),
{
    if existing.len() == 0 {
        Some(Seq::<u128>::empty())
    } else {
        match spec_plan_v6(s, used, existing.drop_last()) {
            None => None,
            Some(pre) => match existing.last() {
                Some(a) => Some(pre.push(a)),
                None => match spec_next_free_v6(s, used + pre, s.host_lo()) {
                    Some(a) => Some(pre.push(a)),
                    None => None,
                },
            },
        }
    }
}

fn copy_u32s(v: &Vec<u32>) -> (r: Vec<u32>)
    ensures
        r@ == v@,
{
    let mut r: Vec<u32> = Vec::new();
    let n: usize = v.len();
    for i in 0..n
        invariant
            n == v@.len(),
            r@ == v@.take(i as int),
    {
        r.push(v[i]);
        assert(v@.take(i + 1) =~= v@.take(i as int).push(v@[i as int]));
    }
    assert(v@.take(n as int) =~= v@);
    r
}

fn copy_u128s(v: &Vec<u128>) -> (r: Vec<u128>)
    ensures
        r@ == v@,
{
    let mut r: Vec<u128> = Vec::new();
    let n: usize = v.len();
    for i in 0..n
        invariant
            n == v@.len(),
            r@ == v@.take(i as int),
    {
        r.push(v[i]);
        assert(v@.take(i + 1) =~= v@.take(i as int).push(v@[i as int]));
    }
    assert(v@.take(n as int) =~= v@);
    r
}

/// A failed plan on a prefix of the peers fails on the whole row too.
proof fn lemma_plan_v4_none_extends(s: SubnetV4, used: Seq<u32>, existing: Seq<Option<u32>>, m: int)
    requires
        0 <= m <= existing.len(),
        spec_plan_v4(s, used, existing.take(m)) is None,
    ensures
        spec_plan_v4(s, used, existing) is None,
    decreases existing.len() - m,
{
    if m < existing.len() {
        assert(existing.take(m + 1).drop_last() =~= existing.take(m));
        lemma_plan_v4_none_extends(s, used, existing, m + 1);
    } else {
        assert(existing.take(m) =~= existing);
    }
}

/// A failed plan on a prefix of the peers fails on the whole row too.
proof fn lemma_plan_v6_none_extends(
    s: SubnetV6,
    used: Seq<u128>,
    existing: Seq<Option<u128>>,
    m: int,
)
    requires
        0 <= m <= existing.len(),
        spec_plan_v6(s, used, existing.take(m)) is None,
    ensures
        spec_plan_v6(s, used, existing) is None,
    decreases existing.len() - m,
{
    if m < existing.len() {
        assert(existing.take(m + 1).drop_last() =~= existing.take(m));
        lemma_plan_v6_none_extends(s, used, existing, m + 1);
    } else {
        assert(existing.take(m) =~= existing);
    }
}

/// Plans the IPv4 address of every peer, exactly as `spec_plan_v4` says.
pub fn plan_v4(s: &SubnetV4, used: &Vec<u32>, existing: &Vec<Option<u32>>) -> (r: Result<
    Vec<u32>,
    Error,
>)
    requires
        s.wf(),
    ensures
        match r {
            Ok(out) => spec_plan_v4(*s, used@, existing@) == Some(out@),
            Err(e) => spec_plan_v4(*s, used@, existing@) is None && (e matches
                Error::AddressPoolExhausted(t) && t@ == spec_subnet_v4_text(*s)),
        },
{
    let mut out: Vec<u32> = Vec::new();
    let mut excl: Vec<u32> = copy_u32s(used);
    let n: usize = existing.len();
    assert(existing@.take(0) =~= Seq::<Option<u32>>::empty());
    assert(excl@ =~= used@ + out@);
    for k in 0..n
        invariant
            s.wf(),
            n == existing@.len(),
            spec_plan_v4(*s, used@, existing@.take(k as int)) == Some(out@),
            excl@ == used@ + out@,
    {
        proof {
            assert(existing@.take(k + 1).drop_last() =~= existing@.take(k as int));
            assert(existing@.take(k + 1).last() == existing@[k as int]);
        }
        let a: u32 = match existing[k] {
            Some(a) => a,
            None => match next_available_v4(s, &excl) {
                Ok(a) => a,
                Err(e) => {
                    proof {
                        lemma_plan_v4_none_extends(*s, used@, existing@, k + 1);
                    }
                    return Err(e);
                },
            },
        };
        out.push(a);
        excl.push(a);
        assert(excl@ =~= used@ + out@);
    }
    assert(existing@.take(n as int) =~= existing@);
    Ok(out)
}

/// Plans the IPv6 address of every peer, exactly as `spec_plan_v6` says.
pub fn plan_v6(s: &SubnetV6, used: &Vec<u128>, existing: &Vec<Option<u128>>) -> (r: Result<
    Vec<u128>,
    Error,
>)
    requires
        s.wf(),
    ensures
        match r {
            Ok(out) => spec_plan_v6(*s, used@, existing@) == Some(out@),
            Err(e) => spec_plan_v6(*s, used@, existing@) is None && (e matches
                Error::AddressPoolExhausted(t) && t@ == spec_subnet_v6_text(*s)),
        },
{
    let mut out: Vec<u128> = Vec::new();
    let mut excl: Vec<u128> = copy_u128s(used);
    let n: usize = existing.len();
    assert(existing@.take(0) =~= Seq::<Option<u128>>::empty());
    assert(excl@ =~= used@ + out@);
    for k in 0..n
        invariant
            s.wf(),
            n == existing@.len(),
            spec_plan_v6(*s, used@, existing@.take(k as int)) == Some(out@),
            excl@ == used@ + out@,
    {
        proof {
            assert(existing@.take(k + 1).drop_last() =~= existing@.take(k as int));
            assert(existing@.take(k + 1).last() == existing@[k as int]);
        }
        let a: u128 = match existing[k] {
            Some(a) => a,
            None => match next_available_v6(s, &excl) {
                Ok(a) => a,
                Err(e) => {
                    proof {
                        lemma_plan_v6_none_extends(*s, used@, existing@, k + 1);
                    }
                    return Err(e);
                },
            },
        };
        out.push(a);
        excl.push(a);
        assert(excl@ =~= used@ + out@);
    }
    assert(existing@.take(n as int) =~= existing@);
    Ok(out)
}

/// A successful plan answers every peer.
pub proof fn lemma_plan_v4_len(s: SubnetV4, used: Seq<u32>, existing: Seq<Option<u32>>)
    requires
        spec_plan_v4(s, used, existing) is Some,
    ensures
        spec_plan_v4(s, used, existing).unwrap().len() == existing.len(),
    decreases existing.len(),
{
    if existing.len() > 0 {
        lemma_plan_v4_len(s, used, existing.drop_last());
    }
}

/// A successful plan answers every peer.
pub proof fn lemma_plan_v6_len(s: SubnetV6, used: Seq<u128>, existing: Seq<Option<u128>>)
    requires
        spec_plan_v6(s, used, existing) is Some,
    ensures
        spec_plan_v6(s, used, existing).unwrap().len() == existing.len(),
    decreases existing.len(),
{
    if existing.len() > 0 {
        lemma_plan_v6_len(s, used, existing.drop_last());
    }
}

/// Allocation stability: a peer that already holds an address keeps it. A
/// re-run whose peers carry the addresses of the previous run therefore
/// preserves all of them.
pub proof fn lemma_allocation_stable(
    s: SubnetV4,
    used: Seq<u32>,
    existing: Seq<Option<u32>>,
    k: int,
)
    requires
        spec_plan_v4(s, used, existing) is Some,
        0 <= k < existing.len(),
        existing[k] is Some,
    ensures
        spec_plan_v4(s, used, existing).unwrap()[k] == existing[k].unwrap(),
    decreases existing.len(),
{
    lemma_plan_v4_len(s, used, existing);
    if k == existing.len() - 1 {
        lemma_plan_v4_len(s, used, existing.drop_last());
    } else {
        lemma_allocation_stable(s, used, existing.drop_last(), k);
        lemma_plan_v4_len(s, used, existing.drop_last());
    }
}

/// Allocation stability over the IPv6 subnet: a peer that already holds an
/// address keeps it.
pub proof fn lemma_allocation_stable_v6(
    s: SubnetV6,
    used: Seq<u128>,
    existing: Seq<Option<u128>>,
    k: int,
)
    requires
        spec_plan_v6(s, used, existing) is Some,
        0 <= k < existing.len(),
        existing[k] is Some,
    ensures
        spec_plan_v6(s, used, existing).unwrap()[k] == existing[k].unwrap(),
    decreases existing.len(),
{
    lemma_plan_v6_len(s, used, existing);
    if k == existing.len() - 1 {
        lemma_plan_v6_len(s, used, existing.drop_last());
    } else {
        lemma_allocation_stable_v6(s, used, existing.drop_last(), k);
        lemma_plan_v6_len(s, used, existing.drop_last());
    }
}

/// Appending one peer to a planned row leaves the earlier results as they
/// were: the longer plan extends the shorter one.
pub proof fn lemma_allocation_append(
    s: SubnetV4,
    used: Seq<u32>,
    existing: Seq<Option<u32>>,
    extra: Option<u32>,
)
    requires
        spec_plan_v4(s, used, existing.push(extra)) is Some,
    ensures
        spec_plan_v4(s, used, existing) is Some,
        spec_plan_v4(s, used, existing.push(extra)).unwrap().take(existing.len() as int)
            == spec_plan_v4(s, used, existing).unwrap(),
{
    assert(existing.push(extra).drop_last() =~= existing);
    lemma_plan_v4_len(s, used, existing);
    let pre = spec_plan_v4(s, used, existing).unwrap();
    let full = spec_plan_v4(s, used, existing.push(extra)).unwrap();
    assert(full.take(existing.len() as int) =~= pre);
}

/// Scanning from `a` over a fully-used stretch lands on the first free spot.
proof fn lemma_next_free_scan(s: SubnetV4, used: Seq<u32>, a: int, c: int)
    requires
        s.wf(),
        s.host_lo() <= a <= c <= s.host_hi(),
        forall|b: int| a <= b < c ==> used.contains(#[trigger] (b as u32)),
        !used.contains(c as u32),
    ensures
        spec_next_free_v4(s, used, a) == Some(c as u32),
    decreases c - a,
{
    lemma_host_range_v4(s);
    if a < c {
        assert(used.contains(a as u32));
        lemma_next_free_scan(s, used, a + 1, c);
    }
}

/// A fresh run hands out the host addresses right after the server's, one per
/// peer, in order.
proof fn lemma_plan_v4_fresh(s: SubnetV4, n: int)
    requires
        s.wf(),
        0 <= n,
        s.host_lo() + n <= s.host_hi(),
    ensures
        spec_plan_v4(
            s,
            seq![s.host_lo() as u32],
            Seq::new(n as nat, |i: int| None::<u32>),
        ) == Some(Seq::new(n as nat, |i: int| (s.host_lo() + 1 + i) as u32)),
    decreases n,
{
    lemma_host_range_v4(s);
    let lo = s.host_lo();
    let used = seq![lo as u32];
    let existing = Seq::new(n as nat, |i: int| None::<u32>);
    let expect = Seq::new(n as nat, |i: int| (lo + 1 + i) as u32);
    if n == 0 {
        assert(expect =~= Seq::<u32>::empty());
    } else {
        lemma_plan_v4_fresh(s, n - 1);
        let existing0 = Seq::new((n - 1) as nat, |i: int| None::<u32>);
        let pre = Seq::new((n - 1) as nat, |i: int| (lo + 1 + i) as u32);
        assert(existing.drop_last() =~= existing0);
        let excl = used + pre;
        assert forall|b: int| lo <= b < lo + n implies excl.contains(#[trigger] (b as u32)) by {
            if b == lo {
                assert(excl[0] == (b as u32));
            } else {
                assert(excl[b - lo] == (lo + 1 + (b - lo - 1)) as u32);
                assert(excl[b - lo] == (b as u32));
            }
        }
        assert(!excl.contains((lo + n) as u32)) by {
            assert forall|k: int| 0 <= k < excl.len() implies excl[k] != ((lo + n) as u32) by {
                if k == 0 {
                    assert(excl[k] == lo as u32);
                } else {
                    assert(excl[k] == (lo + k) as u32);
                }
            }
        }
        lemma_next_free_scan(s, excl, lo, lo + n);
        assert(expect.drop_last() =~= pre);
        assert(expect =~= pre.push((lo + n) as u32));
        assert(spec_plan_v4(s, used, existing) == Some(expect));
    }
}

/// Allocation exclusivity: planning any number of peers that fits the subnet
/// alongside the server — at most the usable host count less one — from a
/// fresh state succeeds, and the server address and every peer address are
/// pairwise distinct usable host addresses; in an ordinary subnet none of
/// them is the network or broadcast address.
pub proof fn lemma_allocation_exclusive(s: SubnetV4, n: int)
    requires
        s.wf(),
        0 <= n,
        n + 1 <= s.host_hi() - s.host_lo() + 1,
    ensures
        ({
            let server = s.host_lo() as u32;
            let plan = spec_plan_v4(s, seq![server], Seq::new(n as nat, |i: int| None::<u32>));
            &&& plan is Some
            &&& plan.unwrap().len() == n
            &&& s.is_host(server as int)
            &&& forall|i: int| 0 <= i < n ==> s.is_host(#[trigger] plan.unwrap()[i] as int)
            &&& forall|i: int| 0 <= i < n ==> (#[trigger] plan.unwrap()[i]) != server
            &&& forall|i: int, j: int|
                0 <= i < j < n ==> (#[trigger] plan.unwrap()[i]) != (#[trigger] plan.unwrap()[j])
            &&& s.prefix <= 30 ==> forall|i: int|
                0 <= i < n ==> (#[trigger] plan.unwrap()[i] as int) != s.net as int
                    && plan.unwrap()[i] as int != s.bcast()
        }),
{
    lemma_host_range_v4(s);
    lemma_plan_v4_fresh(s, n);
}

} // verus!
