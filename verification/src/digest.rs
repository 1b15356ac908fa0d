//! The change-detection gate: a canonical text of the resolved input
//! sections, its digest, the persisted state file that carries both, and the
//! comparison that decides whether regeneration runs.

use vstd::prelude::*;
use vstd::string::StrSliceExecFns;
use vstd::string::StringExecFns;
use vstd::utf8::encode_utf8;

use crate::addr::spec_hex_digit_char;
use crate::config::ConfigFile;
use crate::text::{chars_to_string, push_char, spec_dec, str_eq, u64_to_string, views_of};

verus! {

/// How one character stands inside a quoted string: backslash and quote are
/// escaped with a backslash, the three named control characters with their
/// letters, every other control character below space as `\u00` and two hex
/// digits, and everything else is itself.
pub open spec fn spec_esc_char(c: char) -> Seq<char> {
    if c == '\\' {
        seq!['\\', '\\']
    } else if c == '"' {
        seq!['\\', '"']
    } else if c == '\n' {
        seq!['\\', 'n']
    } else if c == '\r' {
        seq!['\\', 'r']
    } else if c == '\t' {
        seq!['\\', 't']
    } else if (c as int) < 0x20 {
        seq![
            '\\',
            'u',
            '0',
            '0',
            spec_hex_digit_char((c as int) / 16),
            spec_hex_digit_char((c as int) % 16),
        ]
    } else {
        seq![c]
    }
}

/// The escaped body of a quoted string.
pub open spec fn spec_escape(s: Seq<char>) -> Seq<char>
    decreases s.len(),
{
    if s.len() == 0 {
        Seq::<char>::empty()
    } else {
        spec_escape(s.drop_last()) + spec_esc_char(s.last())
    }
}

/// A quoted, escaped string.
pub open spec fn spec_quoted(s: Seq<char>) -> Seq<char> {
    seq!['"'] + spec_escape(s) + seq!['"']
}

/// Renders a quoted, escaped string.
pub fn quoted(s: &str) -> (r: String)
    ensures
        r@ == spec_quoted(s@),
{
    let mut body: Vec<char> = Vec::new();
    body.push('"');
    let n: usize = s.unicode_len();
    assert(body@ =~= seq!['"'] + spec_escape(s@.take(0)));
    for i in 0..n
        invariant
            n == s@.len(),
            body@ == seq!['"'] + spec_escape(s@.take(i as int)),
    {
        let ghost body0 = body@;
        let c = s.get_char(i);
        if c == '\\' {
            body.push('\\');
            body.push('\\');
        } else if c == '"' {
            body.push('\\');
            body.push('"');
        } else if c == '\n' {
            body.push('\\');
            body.push('n');
        } else if c == '\r' {
            body.push('\\');
            body.push('r');
        } else if c == '\t' {
            body.push('\\');
            body.push('t');
        } else if (c as u32) < 0x20 {
            let v: u8 = c as u8;
            let hi: u8 = v / 16;
            let lo: u8 = v % 16;
            body.push('\\');
            body.push('u');
            body.push('0');
            body.push('0');
            body.push(
                if hi < 10 {
                    (hi + 0x30) as char
                } else {
                    (hi + 0x57) as char
                },
            );
            body.push(
                if lo < 10 {
                    (lo + 0x30) as char
                } else {
                    (lo + 0x57) as char
                },
            );
        } else {
            body.push(c);
        }
        proof {
            assert(s@.take(i + 1).drop_last() =~= s@.take(i as int));
            assert(s@.take(i + 1).last() == s@[i as int]);
            assert(body@ =~= body0 + spec_esc_char(s@[i as int]));
            assert(body@ =~= seq!['"'] + spec_escape(s@.take(i + 1)));
        }
    }
    body.push('"');
    proof {
        assert(s@.take(n as int) =~= s@);
        assert(body@ =~= spec_quoted(s@));
    }
    chars_to_string(&body)
}

/// An optional quoted string: `null` when absent.
pub open spec fn spec_opt_quoted(s: Option<Seq<char>>) -> Seq<char> {
    match s {
        Some(t) => spec_quoted(t),
        None => "null"@,
    }
}

/// A bracketed list of quoted strings.
pub open spec fn spec_str_list(items: Seq<Seq<char>>) -> Seq<char>
    decreases items.len(),
{
    if items.len() == 0 {
        Seq::<char>::empty()
    } else if items.len() == 1 {
        spec_quoted(items[0])
    } else {
        spec_str_list(items.drop_last()) + seq![','] + spec_quoted(items.last())
    }
}

/// Renders a bracketed list of quoted strings, without the brackets.
fn str_list(items: &Vec<String>) -> (r: String)
    ensures
        r@ == spec_str_list(views_of(items@)),
{
    let mut r = String::new();
    let n: usize = items.len();
    let ghost iv = views_of(items@);
    assert(r@ =~= spec_str_list(iv.take(0)));
    for i in 0..n
        invariant
            n == items@.len(),
            iv == views_of(items@),
            r@ == spec_str_list(iv.take(i as int)),
    {
        let ghost r0 = r@;
        if i > 0 {
            r.append(",");
        }
        let q = quoted(items[i].as_str());
        r.append(q.as_str());
        proof {
            reveal_strlit(",");
            assert(","@ =~= seq![',']);
            assert(iv.take(i + 1).drop_last() =~= iv.take(i as int));
            assert(iv.take(i + 1).last() == iv[i as int]);
            assert(iv[i as int] == items@[i as int]@);
            if i > 0 {
                assert(r@ =~= r0 + seq![','] + spec_quoted(iv[i as int]));
            } else {
                assert(iv.take(1).len() == 1);
                assert(r@ =~= spec_quoted(iv[i as int]));
            }
        }
    }
    assert(iv.take(n as int) =~= iv);
    r
}

/// A boolean in canonical text.
pub open spec fn spec_bool_text(b: bool) -> Seq<char> {
    if b {
        "true"@
    } else {
        "false"@
    }
}

/// An optional number: `null` when absent.
pub open spec fn spec_opt_count(c: Option<usize>) -> Seq<char> {
    match c {
        Some(n) => spec_dec(n as nat),
        None => "null"@,
    }
}

/// The canonical text of the four resolved input sections — server, network,
/// peers and runtime — and nothing else: derived addresses and generated
/// artifacts stay out of it.
pub open spec fn spec_snapshot_text(cfg: ConfigFile) -> Seq<char> {
    "{\"server\":{\"listen_port\":"@ + spec_dec(cfg.server.listen_port as nat)
        + ",\"external_address\":"@ + spec_opt_quoted(
        match cfg.server.external_address {
            Some(a) => Some(a@),
            None => None,
        },
    ) + "},\"network\":{\"subnet_v4\":"@ + spec_quoted(cfg.network.subnet_v4@)
        + ",\"subnet_v6\":"@ + spec_opt_quoted(
        match cfg.network.subnet_v6 {
            Some(a) => Some(a@),
            None => None,
        },
    ) + ",\"allowed_ips\":["@ + spec_str_list(views_of(cfg.network.allowed_ips@))
        + "],\"peer_dns\":["@ + spec_str_list(views_of(cfg.network.peer_dns@))
        + "]},\"peers\":{\"count\":"@ + spec_opt_count(cfg.peers.count) + ",\"names\":"@ + (
    match cfg.peers.names {
        Some(names) => seq!['['] + spec_str_list(views_of(names@)) + seq![']'],
        None => "null"@,
    }) + "},\"runtime\":{\"enable_coredns\":"@ + spec_bool_text(cfg.runtime.enable_coredns)
        + ",\"emit_qr\":"@ + spec_bool_text(cfg.runtime.emit_qr) + "}}"@
}

/// Renders the canonical snapshot of the resolved inputs.
#[verifier::rlimit(60)]
pub fn render_snapshot(cfg: &ConfigFile) -> (r: String)
    ensures
        r@ == spec_snapshot_text(*cfg),
{
    let mut r: String = "{\"server\":{\"listen_port\":".to_owned();
    let port = u64_to_string(cfg.server.listen_port as u64);
    r.append(port.as_str());
    r.append(",\"external_address\":");
    match &cfg.server.external_address {
        Some(a) => {
            let q = quoted(a.as_str());
            r.append(q.as_str());
        },
        None => {
            r.append("null");
        },
    }
    r.append("},\"network\":{\"subnet_v4\":");
    let q4 = quoted(cfg.network.subnet_v4.as_str());
    r.append(q4.as_str());
    r.append(",\"subnet_v6\":");
    match &cfg.network.subnet_v6 {
        Some(a) => {
            let q = quoted(a.as_str());
            r.append(q.as_str());
        },
        None => {
            r.append("null");
        },
    }
    r.append(",\"allowed_ips\":[");
    let allowed = str_list(&cfg.network.allowed_ips);
    r.append(allowed.as_str());
    r.append("],\"peer_dns\":[");
    let dns = str_list(&cfg.network.peer_dns);
    r.append(dns.as_str());
    r.append("]},\"peers\":{\"count\":");
    match cfg.peers.count {
        Some(n) => {
            let t = u64_to_string(n as u64);
            r.append(t.as_str());
        },
        None => {
            r.append("null");
        },
    }
    r.append(",\"names\":");
    match &cfg.peers.names {
        Some(names) => {
            r.append("[");
            let l = str_list(names);
            r.append(l.as_str());
            r.append("]");
            proof {
                reveal_strlit("[");
                reveal_strlit("]");
                assert("["@ =~= seq!['[']);
                assert("]"@ =~= seq![']']);
            }
        },
        None => {
            r.append("null");
        },
    }
    r.append("},\"runtime\":{\"enable_coredns\":");
    if cfg.runtime.enable_coredns {
        r.append("true");
    } else {
        r.append("false");
    }
    r.append(",\"emit_qr\":");
    if cfg.runtime.emit_qr {
        r.append("true");
    } else {
        r.append("false");
    }
    r.append("}}");
    proof {
        assert(r@ =~= spec_snapshot_text(*cfg));
    }
    r
}

/// What the SHA-256 digest of a byte sequence is. The function itself lives
/// in the `sha2` crate; its result depends on the bytes alone.
pub uninterp spec fn sha256_of(data: Seq<u8>) -> Seq<u8>;

/// Relies on `sha2::Sha256` through `Digest::digest`: the SHA-256 digest of
/// the input, always 32 bytes.
#[verifier::external_body]
fn sha256(data: &Vec<u8>) -> (r: Vec<u8>)
    ensures
        r@ == sha256_of(data@),
        r@.len() == 32,
{
    <sha2::Sha256 as sha2::Digest>::digest(data.as_slice()).to_vec()
}

/// Each byte as two lowercase hex digits, high nibble first.
pub open spec fn spec_hex_bytes(data: Seq<u8>) -> Seq<char>
    decreases data.len(),
{
    if data.len() == 0 {
        Seq::<char>::empty()
    } else {
        spec_hex_bytes(data.drop_last()) + seq![
            spec_hex_digit_char(data.last() as int / 16),
            spec_hex_digit_char(data.last() as int % 16),
        ]
    }
}

/// Relies on `hex::encode`: two lowercase hex digits per byte, high nibble
/// first.
#[verifier::external_body]
fn hex_encode(data: &Vec<u8>) -> (r: String)
    ensures
        r@ == spec_hex_bytes(data@),
{
    hex::encode(data.as_slice())
}

/// The digest text of a configuration: the hex form of the SHA-256 digest of
/// the canonical snapshot's bytes.
pub open spec fn spec_digest_of(cfg: ConfigFile) -> Seq<char> {
    spec_hex_bytes(sha256_of(encode_utf8(spec_snapshot_text(cfg))))
}

/// Computes the digest text of a configuration.
pub fn inputs_digest(cfg: &ConfigFile) -> (r: String)
    ensures
        r@ == spec_digest_of(*cfg),
{
    let text = render_snapshot(cfg);
    let bytes = text.as_str().as_bytes_vec();
    let digest = sha256(&bytes);
    hex_encode(&digest)
}

/// The persisted state file: the digest, then the snapshot it was taken of,
/// written compact; `spec_extract_digest` reads the digest back out of this
/// very shape, and a state file in any other shape counts as carrying no
/// digest.
pub open spec fn spec_state_text(digest: Seq<char>, cfg: ConfigFile) -> Seq<char> {
    "{\"digest\":\""@ + digest + "\",\"inputs\":"@ + spec_snapshot_text(cfg) + "}"@
}

/// Renders the state file for a configuration, with its digest inside.
pub fn render_inputs_state(cfg: &ConfigFile) -> (r: String)
    ensures
        r@ == spec_state_text(spec_digest_of(*cfg), *cfg),
{
    let mut r: String = "{\"digest\":\"".to_owned();
    let digest = inputs_digest(cfg);
    r.append(digest.as_str());
    r.append("\",\"inputs\":");
    let snap = render_snapshot(cfg);
    r.append(snap.as_str());
    r.append("}");
    proof {
        assert(r@ =~= spec_state_text(spec_digest_of(*cfg), *cfg));
    }
    r
}

/// The characters before the first quote.
pub open spec fn spec_before_quote(s: Seq<char>) -> Seq<char>
    decreases s.len(),
{
    if s.len() == 0 {
        Seq::<char>::empty()
    } else if s.first() == '"' {
        Seq::<char>::empty()
    } else {
        seq![s.first()] + spec_before_quote(s.drop_first())
    }
}

/// What reading the digest back out of a state file yields: the text between
/// the fixed header and the next quote.
pub open spec fn spec_extract_digest(text: Seq<char>) -> Option<Seq<char>> {
    if text.len() >= 11 && text.take(11) == "{\"digest\":\""@ {
        Some(spec_before_quote(text.skip(11)))
    } else {
        None
    }
}

/// Reads the digest out of a stored state file, exactly as
/// `spec_extract_digest` says.
pub fn extract_state_digest(text: &str) -> (r: Option<String>)
    ensures
        match r {
            Some(d) => spec_extract_digest(text@) == Some(d@),
            None => spec_extract_digest(text@) is None,
        },
{
    proof {
        reveal_strlit("{\"digest\":\"");
    }
    if !crate::text::starts_with(text, "{\"digest\":\"") {
        return None;
    }
    let n: usize = text.unicode_len();
    let mut out: Vec<char> = Vec::new();
    let mut i: usize = 11;
    assert(text@.skip(11).skip(0) =~= text@.skip(11));
    assert(out@ =~= Seq::<char>::empty());
    while i < n
        invariant_except_break
            n == text@.len(),
            11 <= i <= n,
            spec_before_quote(text@.skip(11)) == out@ + spec_before_quote(text@.skip(i as int)),
        ensures
            spec_before_quote(text@.skip(11)) == out@,
        decreases n - i,
    {
        let c = text.get_char(i);
        proof {
            assert(text@.skip(i as int).first() == text@[i as int]);
            assert(text@.skip(i as int).drop_first() =~= text@.skip(i + 1));
        }
        if c == '"' {
            assert(out@ + spec_before_quote(text@.skip(i as int)) =~= out@);
            break;
        }
        let ghost out0 = out@;
        out.push(c);
        proof {
            assert(out@ + spec_before_quote(text@.skip(i + 1)) =~= out0 + (seq![text@[i as int]]
                + spec_before_quote(text@.skip(i + 1))));
        }
        i += 1;
        if i == n {
            assert(text@.skip(i as int) =~= Seq::<char>::empty());
        }
    }
    if i == n {
        assert(text@.skip(i as int) =~= Seq::<char>::empty());
    }
    Some(chars_to_string(&out))
}

/// Lowercase hex text never holds a quote.
proof fn lemma_hex_no_quote(data: Seq<u8>)
    ensures
        forall|i: int| 0 <= i < spec_hex_bytes(data).len() ==> spec_hex_bytes(data)[i] != '"',
        spec_hex_bytes(data).len() == 2 * data.len(),
    decreases data.len(),
{
    if data.len() > 0 {
        lemma_hex_no_quote(data.drop_last());
    }
}

/// Text without quotes, followed by a quote, reads back as itself.
proof fn lemma_before_quote_of(d: Seq<char>, rest: Seq<char>)
    requires
        forall|i: int| 0 <= i < d.len() ==> d[i] != '"',
        rest.len() > 0,
        rest.first() == '"',
    ensures
        spec_before_quote(d + rest) == d,
    decreases d.len(),
{
    if d.len() == 0 {
        assert(d + rest =~= rest);
    } else {
        assert((d + rest).first() == d.first());
        assert((d + rest).drop_first() =~= d.drop_first() + rest);
        lemma_before_quote_of(d.drop_first(), rest);
        assert(seq![d.first()] + d.drop_first() =~= d);
    }
}

/// The digest written into a state file is the digest read back from it: the
/// state file round-trips.
pub proof fn lemma_state_digest_round_trip(cfg: ConfigFile)
    ensures
        spec_extract_digest(spec_state_text(spec_digest_of(cfg), cfg)) == Some(
            spec_digest_of(cfg),
        ),
{
    reveal_strlit("{\"digest\":\"");
    reveal_strlit("\",\"inputs\":");
    reveal_strlit("}");
    let d = spec_digest_of(cfg);
    let text = spec_state_text(d, cfg);
    lemma_hex_no_quote(sha256_of(encode_utf8(spec_snapshot_text(cfg))));
    assert(text.take(11) =~= "{\"digest\":\""@);
    let rest = "\",\"inputs\":"@ + spec_snapshot_text(cfg) + "}"@;
    assert(rest.first() == '"');
    assert(text.skip(11) =~= d + rest);
    lemma_before_quote_of(d, rest);
}

/// Whether the stored digest differs from the configuration's: true exactly
/// when there is no stored digest or it is another text.
pub fn inputs_changed(cfg: &ConfigFile, stored_digest: &Option<String>) -> (r: bool)
    ensures
        r == (match stored_digest {
            Some(d) => d@ != spec_digest_of(*cfg),
            None => true,
        }),
{
    let digest = inputs_digest(cfg);
    match stored_digest {
        Some(d) => !str_eq(d.as_str(), digest.as_str()),
        None => true,
    }
}

} // verus!
