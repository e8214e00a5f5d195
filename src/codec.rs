//! The attempt-counted envelope and its JSON wire text
//! `{"attempts":<n>,"content":"<escaped content>"}`, or, where the envelope
//! carries a derived output, `{"attempts":<n>,"content":"<...>","output":<JSON>}`.
//!
//! The wire form is canonical and the reader takes exactly that form: no
//! whitespace between the envelope's tokens, the fields in this order, the
//! count in decimal without leading zeros, and the content as a JSON string of UTF-8 text
//! written with the escapes that `escape` uses (`\"`, `\\`, `\n`, `\r`,
//! `\t`, and `\u00XX` in lower-case hex for other control bytes). The
//! counter may also be spelled `attempt`. Content given as an embedded JSON
//! value rather than a string is not read: such a text is malformed here.
//! Every envelope's text is read back to that envelope, and the only texts
//! read are the ones written (up to the counter's spelling). Envelopes in
//! any other JSON layout are read by a general JSON reader where records
//! come in, and handed to `router::route_envelope` as an `Envelope`.
use vstd::prelude::*;

use crate::digits::{
    all_digits, decimal, digit_run, digits_value, is_canonical, is_digit, lemma_canonical_decimal, lemma_digit_run_prefix,
    lemma_decimal, lemma_digit_run_concat, lemma_prefix_value, push_decimal,
};
use crate::validate::{is_utf8, json_parses, parses_as_json, utf8_valid};
use crate::DecodeError;

verus! {

pub const QUOTE: u8 = 34;

pub const BACKSLASH: u8 = 92;

/// The retry state carried inside a record.
#[derive(Debug, Clone)]
pub struct Envelope {
    /// Number of validation cycles that have failed so far.
    pub attempts: u32,
    /// The payload under validation, as the bytes of a text string.
    pub content: Vec<u8>,
    /// A value derived from the content, as JSON text, where the pipeline
    /// validates that instead of the content.
    pub output: Option<Vec<u8>>,
}

/// `{"attempts":`
pub open spec fn header() -> Seq<u8> {
    seq![123u8, 34, 97, 116, 116, 101, 109, 112, 116, 115, 34, 58]
}

/// `{"attempt":`, the counter's other spelling, accepted on input.
pub open spec fn alt_header() -> Seq<u8> {
    seq![123u8, 34, 97, 116, 116, 101, 109, 112, 116, 34, 58]
}

/// `,"content":"`
pub open spec fn middle() -> Seq<u8> {
    seq![44u8, 34, 99, 111, 110, 116, 101, 110, 116, 34, 58, 34]
}

pub open spec fn bytes_view(o: Option<Vec<u8>>) -> Option<Seq<u8>> {
    match o {
        Some(v) => Some(v@),
        None => None,
    }
}

/// A hex digit as `escape` writes it: `0`-`9`, then `a`-`f`.
pub open spec fn hex_digit(d: int) -> u8 {
    if d < 10 {
        (d + 48) as u8
    } else {
        (d + 87) as u8
    }
}

/// The value of a hex digit as `escape` writes it.
pub open spec fn hex_value(c: u8) -> Option<int> {
    if 48 <= c <= 57 {
        Some(c - 48)
    } else if 97 <= c <= 102 {
        Some(c - 87)
    } else {
        None
    }
}

/// A control byte that has no short escape.
pub open spec fn needs_unicode_escape(b: u8) -> bool {
    b < 32 && b != 9 && b != 10 && b != 13
}

/// The byte that `\u00` followed by `h` and `l` stands for, where `escape`
/// would have written it that way.
pub open spec fn unicode_byte(h: u8, l: u8) -> Option<u8> {
    if (h == 48 || h == 49) && hex_value(l) is Some {
        let v = (h - 48) * 16 + hex_value(l).unwrap();
        if needs_unicode_escape(v as u8) {
            Some(v as u8)
        } else {
            None
        }
    } else {
        None
    }
}

/// How one content byte is written inside the JSON string: a quote and a
/// backslash take a backslash, tab, line feed and carriage return take
/// their short escapes, other control bytes take `\u00XX`.
pub open spec fn escape_byte(b: u8) -> Seq<u8> {
    if needs_unicode_escape(b) {
        seq![BACKSLASH, 117u8, 48u8, 48u8, hex_digit((b / 16) as int), hex_digit((b % 16) as int)]
    } else if b == QUOTE {
        seq![BACKSLASH, QUOTE]
    } else if b == BACKSLASH {
        seq![BACKSLASH, BACKSLASH]
    } else if b == 10 {
        seq![BACKSLASH, 110u8]
    } else if b == 13 {
        seq![BACKSLASH, 114u8]
    } else if b == 9 {
        seq![BACKSLASH, 116u8]
    } else {
        seq![b]
    }
}

pub open spec fn escape(c: Seq<u8>) -> Seq<u8>
    decreases c.len(),
{
    if c.len() == 0 {
        seq![]
    } else {
        escape_byte(c[0]) + escape(c.drop_first())
    }
}

/// The byte that an escape `\l` stands for.
pub open spec fn escaped_letter(l: u8) -> Option<u8> {
    if l == QUOTE {
        Some(QUOTE)
    } else if l == BACKSLASH {
        Some(BACKSLASH)
    } else if l == 110 {
        Some(10u8)
    } else if l == 114 {
        Some(13u8)
    } else if l == 116 {
        Some(9u8)
    } else {
        None
    }
}

pub open spec fn prefixed(p: Seq<u8>, n: nat, o: Option<(Seq<u8>, nat)>) -> Option<(Seq<u8>, nat)> {
    match o {
        Some((t, k)) => Some((p + t, k + n)),
        None => None,
    }
}

/// Reads the inside of a JSON string up to its closing quote, as `escape`
/// writes it: the content, and where the closing quote stands.
pub open spec fn string_body(s: Seq<u8>) -> Option<(Seq<u8>, nat)>
    decreases s.len(),
{
    if s.len() == 0 {
        None
    } else if s[0] == QUOTE {
        Some((Seq::<u8>::empty(), 0))
    } else if s[0] == BACKSLASH {
        if s.len() < 2 {
            None
        } else if s[1] == 117 {
            if s.len() < 6 || s[2] != 48 || s[3] != 48 {
                None
            } else {
                match unicode_byte(s[4], s[5]) {
                    Some(b) => prefixed(seq![b], 6, string_body(s.subrange(6, s.len() as int))),
                    None => None,
                }
            }
        } else {
            match escaped_letter(s[1]) {
                Some(b) => prefixed(seq![b], 2, string_body(s.subrange(2, s.len() as int))),
                None => None,
            }
        }
    } else if s[0] < 32 {
        None
    } else {
        prefixed(seq![s[0]], 1, string_body(s.drop_first()))
    }
}

/// `,"output":`
pub open spec fn output_key() -> Seq<u8> {
    seq![44u8, 34, 111, 117, 116, 112, 117, 116, 34, 58]
}

/// What follows the content: the closing quote, the output if there is
/// one, and the closing brace.
pub open spec fn closing(output: Option<Seq<u8>>) -> Seq<u8> {
    match output {
        None => seq![QUOTE, 125u8],
        Some(v) => seq![QUOTE] + output_key() + v + seq![125u8],
    }
}

/// The wire text of an envelope.
pub open spec fn envelope_text(attempts: nat, content: Seq<u8>, output: Option<Seq<u8>>) -> Seq<
    u8,
> {
    header() + decimal(attempts) + middle() + escape(content) + closing(output)
}

/// The length of the counter's header that `raw` starts with.
pub open spec fn header_len(raw: Seq<u8>) -> Option<nat> {
    if raw.len() >= 12 && raw.take(12) == header() {
        Some(12)
    } else if raw.len() >= 11 && raw.take(11) == alt_header() {
        Some(11)
    } else {
        None
    }
}

/// What follows the content's closing quote: a closing brace alone, or the
/// output, which must be one JSON value, and then the closing brace.
pub open spec fn read_closing(tail: Seq<u8>) -> Option<Option<Seq<u8>>> {
    if tail == seq![125u8] {
        Some(None)
    } else if tail.len() >= 11 && tail.take(10) == output_key() && tail.last() == 125
        && json_parses(tail.subrange(10, tail.len() - 1)) {
        Some(Some(tail.subrange(10, tail.len() - 1)))
    } else {
        None
    }
}

/// What the wire text `raw` holds, if it is in the canonical form that
/// `envelope_text` writes (the counter spelled either way): attempt count, content and output.
pub open spec fn parse_envelope(raw: Seq<u8>) -> Option<(nat, Seq<u8>, Option<Seq<u8>>)> {
    match header_len(raw) {
        None => None,
        Some(h) => {
            let after = raw.skip(h as int);
            let n = digit_run(after);
            let ds = after.take(n as int);
            let v = digits_value(ds);
            let rest = after.skip(n as int);
            if n == 0 || (n > 1 && ds[0] == 48) || v > u32::MAX {
                None
            } else if rest.len() < 12 || rest.take(12) != middle() {
                None
            } else {
                match string_body(rest.skip(12)) {
                    None => None,
                    Some((c, k)) => if is_utf8(c) {
                        match read_closing(rest.skip(12 + k + 1 as int)) {
                            Some(o) => Some((v, c, o)),
                            None => None,
                        }
                    } else {
                        None
                    },
                }
            }
        },
    }
}

pub proof fn lemma_escape_concat(a: Seq<u8>, b: Seq<u8>)
    ensures
        escape(a + b) == escape(a) + escape(b),
    decreases a.len(),
{
    if a.len() == 0 {
        assert(a + b =~= b);
        assert(escape(a) + escape(b) =~= escape(b));
    } else {
        lemma_escape_concat(a.drop_first(), b);
        assert((a + b).drop_first() =~= a.drop_first() + b);
        assert((a + b)[0] == a[0]);
        assert(escape(a + b) =~= escape(a) + escape(b));
    }
}

/// Reading the escaped form of text, followed by a quote, gives the text
/// back and finds that quote.
pub proof fn lemma_string_body_escape(c: Seq<u8>, rest: Seq<u8>)
    ensures
        string_body(escape(c) + seq![QUOTE] + rest) == Some((c, escape(c).len())),
    decreases c.len(),
{
    let s = escape(c) + seq![QUOTE] + rest;
    if c.len() > 0 {
        let tl = c.drop_first();
        lemma_string_body_escape(tl, rest);
        let eb = escape_byte(c[0]);
        assert(escape(c) == eb + escape(tl));
        if eb.len() == 6 {
            let b = c[0];
            assert(unicode_byte(hex_digit((b / 16) as int), hex_digit((b % 16) as int)) == Some(b));
            assert(s.subrange(6, s.len() as int) =~= escape(tl) + seq![QUOTE] + rest);
        } else if eb.len() == 2 {
            assert(s.subrange(2, s.len() as int) =~= escape(tl) + seq![QUOTE] + rest);
        } else {
            assert(s.drop_first() =~= escape(tl) + seq![QUOTE] + rest);
        }
        assert(seq![c[0]] + tl =~= c);
    } else {
        assert(escape(c) =~= Seq::<u8>::empty());
        assert(s[0] == QUOTE);
    }
}

/// Decoding the wire text of an envelope gives that envelope back, for
/// every UTF-8 content and every output that is one JSON value.
pub proof fn lemma_round_trip(attempts: nat, content: Seq<u8>, output: Option<Seq<u8>>)
    requires
        attempts <= u32::MAX,
        is_utf8(content),
        output matches Some(v) ==> json_parses(v),
    ensures
        parse_envelope(envelope_text(attempts, content, output)) == Some(
            (attempts, content, output),
        ),
{
    let d = decimal(attempts);
    let e = escape(content);
    let cl = closing(output);
    let raw = envelope_text(attempts, content, output);
    lemma_decimal(attempts);
    let after_q = cl.drop_first();
    lemma_string_body_escape(content, after_q);
    assert(raw.take(12) =~= header());
    let after = raw.skip(12);
    let tail = middle() + e + cl;
    assert(after =~= d + tail);
    lemma_digit_run_concat(d, tail);
    assert(after.take(d.len() as int) =~= d);
    let rest = after.skip(d.len() as int);
    assert(rest =~= tail);
    assert(rest.take(12) =~= middle());
    assert(rest.skip(12) =~= e + seq![QUOTE] + after_q);
    assert(rest.skip(12 + e.len() + 1 as int) =~= after_q);
    lemma_read_closing(output);
}

pub proof fn lemma_read_closing(output: Option<Seq<u8>>)
    requires
        output matches Some(v) ==> json_parses(v),
    ensures
        read_closing(closing(output).drop_first()) == Some(output),
{
    let after_q = closing(output).drop_first();
    match output {
        None => {
            assert(after_q =~= seq![125u8]);
        },
        Some(v) => {
            assert(after_q =~= output_key() + v + seq![125u8]);
            assert(after_q.take(10) =~= output_key());
            assert(after_q.subrange(10, after_q.len() - 1) =~= v);
            assert(after_q != seq![125u8]) by {
                assert(after_q.len() >= 11);
            }
        },
    }
}

/// Whatever `string_body` reads is the escaped form of text, ended by the
/// quote it reports.
pub proof fn lemma_string_body_sound(s: Seq<u8>)
    requires
        string_body(s) is Some,
    ensures
        ({
            let (c, k) = string_body(s).unwrap();
            &&& k < s.len()
            &&& s[k as int] == QUOTE
            &&& s.take(k as int) == escape(c)
        }),
    decreases s.len(),
{
    let (c, k) = string_body(s).unwrap();
    if s[0] == QUOTE {
        assert(s.take(0) =~= Seq::<u8>::empty());
        assert(escape(c) =~= Seq::<u8>::empty());
    } else if s[0] == BACKSLASH && s[1] == 117 {
        let r = s.subrange(6, s.len() as int);
        lemma_string_body_sound(r);
        let (t, j) = string_body(r).unwrap();
        let b = unicode_byte(s[4], s[5]).unwrap();
        assert(c == seq![b] + t);
        assert(c.drop_first() =~= t);
        assert(hex_digit((b / 16) as int) == s[4]);
        assert(hex_digit((b % 16) as int) == s[5]);
        assert(escape_byte(b) =~= s.take(6));
        assert(s.take(k as int) =~= escape_byte(b) + r.take(j as int));
    } else if s[0] == BACKSLASH {
        let r = s.subrange(2, s.len() as int);
        lemma_string_body_sound(r);
        let (t, j) = string_body(r).unwrap();
        let b = escaped_letter(s[1]).unwrap();
        assert(c == seq![b] + t);
        assert(c.drop_first() =~= t);
        assert(escape_byte(b) =~= seq![BACKSLASH, s[1]]);
        assert(s.take(k as int) =~= escape_byte(b) + r.take(j as int));
    } else {
        let r = s.drop_first();
        lemma_string_body_sound(r);
        let (t, j) = string_body(r).unwrap();
        assert(c == seq![s[0]] + t);
        assert(c.drop_first() =~= t);
        assert(escape_byte(s[0]) =~= seq![s[0]]);
        assert(s.take(k as int) =~= escape_byte(s[0]) + r.take(j as int));
    }
}

/// Encoding what was decoded from a text that spells the counter
/// `attempts` gives that very text back: the wire form of an envelope is
/// unique.
#[verifier::rlimit(40)]
pub proof fn lemma_reencode(raw: Seq<u8>)
    requires
        header_len(raw) == Some(12nat),
        parse_envelope(raw) is Some,
    ensures
        ({
            let (attempts, content, output) = parse_envelope(raw).unwrap();
            envelope_text(attempts, content, output) == raw
        }),
{
    let (v, c, o) = parse_envelope(raw).unwrap();
    let after = raw.skip(12);
    let n = digit_run(after);
    let ds = after.take(n as int);
    let rest = after.skip(n as int);
    lemma_digit_run_prefix(after);
    lemma_canonical_decimal(ds);
    let body = rest.skip(12);
    lemma_string_body_sound(body);
    let (c2, k) = string_body(body).unwrap();
    assert(is_utf8(c2));
    assert(c2 == c);
    let tail = rest.skip(12 + k + 1 as int);
    assert(read_closing(tail) == Some(o));
    let cl = closing(o);
    assert(cl =~= seq![QUOTE] + tail) by {
        match o {
            None => {},
            Some(w) => {
                assert(tail =~= tail.take(10) + tail.subrange(10, tail.len() - 1) + seq![
                    tail.last(),
                ]);
            },
        }
    }
    assert(body =~= body.take(k as int) + seq![QUOTE] + tail);
    assert(rest =~= rest.take(12) + body);
    assert(after =~= ds + rest);
    assert(raw =~= raw.take(12) + after);
    assert(envelope_text(v, c, o) =~= raw);
}

fn push_bytes(out: &mut Vec<u8>, bytes: &Vec<u8>)
    ensures
        final(out)@ == old(out)@ + bytes@,
{
    let mut i: usize = 0;
    while i < bytes.len()
        invariant
            i <= bytes.len(),
            out@ == old(out)@ + bytes@.take(i as int),
        decreases bytes.len() - i,
    {
        out.push(bytes[i]);
        i = i + 1;
        assert(out@ =~= old(out)@ + bytes@.take(i as int));
    }
    assert(bytes@.take(i as int) =~= bytes@);
}

fn push_escaped_byte(out: &mut Vec<u8>, b: u8)
    ensures
        final(out)@ == old(out)@ + escape_byte(b),
{
    if b < 32 && b != 9 && b != 10 && b != 13 {
        let lo = b % 16;
        out.push(BACKSLASH);
        out.push(117);
        out.push(48);
        out.push(48);
        out.push(b / 16 + 48);
        if lo < 10 {
            out.push(lo + 48);
        } else {
            out.push(lo + 87);
        }
    } else if b == QUOTE {
        out.push(BACKSLASH);
        out.push(QUOTE);
    } else if b == BACKSLASH {
        out.push(BACKSLASH);
        out.push(BACKSLASH);
    } else if b == 10 {
        out.push(BACKSLASH);
        out.push(110);
    } else if b == 13 {
        out.push(BACKSLASH);
        out.push(114);
    } else if b == 9 {
        out.push(BACKSLASH);
        out.push(116);
    } else {
        out.push(b);
    }
    assert(out@ =~= old(out)@ + escape_byte(b));
}

fn push_escaped(out: &mut Vec<u8>, content: &Vec<u8>)
    ensures
        final(out)@ == old(out)@ + escape(content@),
{
    let mut i: usize = 0;
    while i < content.len()
        invariant
            i <= content.len(),
            out@ == old(out)@ + escape(content@.take(i as int)),
        decreases content.len() - i,
    {
        let b = content[i];
        proof {
            lemma_escape_concat(content@.take(i as int), seq![b]);
            assert(content@.take(i as int) + seq![b] =~= content@.take(i + 1));
            assert(seq![b].drop_first() =~= Seq::<u8>::empty());
            assert(escape(seq![b].drop_first()) =~= Seq::<u8>::empty());
            assert(escape(seq![b]) =~= escape_byte(b));
        }
        push_escaped_byte(out, b);
        i = i + 1;
        assert(out@ =~= old(out)@ + escape(content@.take(i as int)));
    }
    assert(content@.take(i as int) =~= content@);
}

fn header_bytes() -> (r: Vec<u8>)
    ensures
        r@ == header(),
{
    let r: Vec<u8> = vec![123, 34, 97, 116, 116, 101, 109, 112, 116, 115, 34, 58];
    assert(r@ =~= header());
    r
}

fn alt_header_bytes() -> (r: Vec<u8>)
    ensures
        r@ == alt_header(),
{
    let r: Vec<u8> = vec![123, 34, 97, 116, 116, 101, 109, 112, 116, 34, 58];
    assert(r@ =~= alt_header());
    r
}

fn middle_bytes() -> (r: Vec<u8>)
    ensures
        r@ == middle(),
{
    let r: Vec<u8> = vec![44, 34, 99, 111, 110, 116, 101, 110, 116, 34, 58, 34];
    assert(r@ =~= middle());
    r
}

fn output_key_bytes() -> (r: Vec<u8>)
    ensures
        r@ == output_key(),
{
    let r: Vec<u8> = vec![44, 34, 111, 117, 116, 112, 117, 116, 34, 58];
    assert(r@ =~= output_key());
    r
}

/// Writes the wire text of an envelope.
pub fn encode_envelope(e: &Envelope) -> (r: Vec<u8>)
    ensures
        r@ == envelope_text(e.attempts as nat, e.content@, bytes_view(e.output)),
{
    let mut out: Vec<u8> = Vec::new();
    push_bytes(&mut out, &header_bytes());
    push_decimal(&mut out, e.attempts);
    push_bytes(&mut out, &middle_bytes());
    push_escaped(&mut out, &e.content);
    out.push(QUOTE);
    match &e.output {
        None => {},
        Some(v) => {
            push_bytes(&mut out, &output_key_bytes());
            push_bytes(&mut out, v);
        },
    }
    out.push(125);
    assert(out@ =~= envelope_text(e.attempts as nat, e.content@, bytes_view(e.output)));
    out
}

/// Whether `pat` occurs in `raw` at `pos`.
fn matches_at(raw: &[u8], pos: usize, pat: &Vec<u8>) -> (r: bool)
    ensures
        r == (pos + pat@.len() <= raw@.len() && raw@.subrange(pos as int, pos + pat@.len())
            == pat@),
{
    if pos > raw.len() || pat.len() > raw.len() - pos {
        return false;
    }
    let len = raw.len();
    let mut j: usize = 0;
    while j < pat.len()
        invariant
            len == raw@.len(),
            j <= pat.len(),
            pos + pat@.len() <= raw@.len(),
            forall|k: int| 0 <= k < j ==> raw@[pos + k] == pat@[k],
        decreases pat.len() - j,
    {
        if raw[pos + j] != pat[j] {
            assert(raw@.subrange(pos as int, pos + pat@.len())[j as int] != pat@[j as int]);
            return false;
        }
        j = j + 1;
    }
    assert(raw@.subrange(pos as int, pos + pat@.len()) =~= pat@);
    true
}

/// Reads the JSON string body that starts at `start`: its content and the
/// index of its closing quote.
fn string_body_at(raw: &[u8], start: usize) -> (r: Option<(Vec<u8>, usize)>)
    requires
        start <= raw@.len(),
    ensures
        match r {
            Some((c, q)) => start <= q < raw@.len() && string_body(raw@.skip(start as int))
                == Some((c@, (q - start) as nat)),
            None => string_body(raw@.skip(start as int)) is None,
        },
{
    let mut out: Vec<u8> = Vec::new();
    let mut i: usize = start;
    while i < raw.len()
        invariant
            start <= i <= raw@.len(),
            string_body(raw@.skip(start as int)) == prefixed(
                out@,
                (i - start) as nat,
                string_body(raw@.skip(i as int)),
            ),
        decreases raw.len() - i,
    {
        let ghost s = raw@.skip(i as int);
        let b = raw[i];
        assert(s[0] == b);
        if b == QUOTE {
            assert(out@ + Seq::<u8>::empty() =~= out@);
            return Some((out, i));
        }
        if b == BACKSLASH {
            if i + 1 >= raw.len() {
                return None;
            }
            let l = raw[i + 1];
            assert(s[1] == l);
            if l == 117 {
                if raw.len() - i < 6 || raw[i + 2] != 48 || raw[i + 3] != 48 {
                    return None;
                }
                let h = raw[i + 4];
                let x = raw[i + 5];
                assert(s[4] == h && s[5] == x);
                if !(h == 48 || h == 49) {
                    return None;
                }
                let d: u8;
                if 48 <= x && x <= 57 {
                    d = x - 48;
                } else if 97 <= x && x <= 102 {
                    d = x - 87;
                } else {
                    return None;
                }
                let v: u8 = (h - 48) * 16 + d;
                if !(v < 32 && v != 9 && v != 10 && v != 13) {
                    return None;
                }
                assert(unicode_byte(h, x) == Some(v));
                assert(s.subrange(6, s.len() as int) =~= raw@.skip(i + 6));
                proof {
                    match string_body(raw@.skip(i + 6)) {
                        Some((t, k)) => {
                            assert(out@ + (seq![v] + t) =~= out@.push(v) + t);
                        },
                        None => {},
                    }
                }
                out.push(v);
                i = i + 6;
                continue;
            }
            let c: u8;
            if l == QUOTE {
                c = QUOTE;
            } else if l == BACKSLASH {
                c = BACKSLASH;
            } else if l == 110 {
                c = 10;
            } else if l == 114 {
                c = 13;
            } else if l == 116 {
                c = 9;
            } else {
                return None;
            }
            assert(s.subrange(2, s.len() as int) =~= raw@.skip(i + 2));
            proof {
                match string_body(raw@.skip(i + 2)) {
                    Some((t, k)) => {
                        assert(out@ + (seq![c] + t) =~= out@.push(c) + t);
                    },
                    None => {},
                }
            }
            out.push(c);
            i = i + 2;
        } else {
            if b < 32 {
                return None;
            }
            assert(s.drop_first() =~= raw@.skip(i + 1));
            proof {
                match string_body(raw@.skip(i + 1)) {
                    Some((t, k)) => {
                        assert(out@ + (seq![b] + t) =~= out@.push(b) + t);
                    },
                    None => {},
                }
            }
            out.push(b);
            i = i + 1;
        }
    }
    assert(raw@.skip(i as int) =~= Seq::<u8>::empty());
    None
}

/// A copy of `raw[a..b]`.
fn copy_range(raw: &[u8], a: usize, b: usize) -> (r: Vec<u8>)
    requires
        a <= b <= raw@.len(),
    ensures
        r@ == raw@.subrange(a as int, b as int),
{
    let mut out: Vec<u8> = Vec::new();
    let mut i: usize = a;
    while i < b
        invariant
            a <= i <= b <= raw@.len(),
            out@ == raw@.subrange(a as int, i as int),
        decreases b - i,
    {
        out.push(raw[i]);
        i = i + 1;
        assert(out@ =~= raw@.subrange(a as int, i as int));
    }
    out
}

/// The end of the run of digits in `raw` that starts at `h`.
fn digit_end(raw: &[u8], h: usize) -> (i: usize)
    requires
        h <= raw@.len(),
    ensures
        h <= i <= raw@.len(),
        digit_run(raw@.skip(h as int)) == i - h,
        all_digits(raw@.subrange(h as int, i as int)),
{
    let mut i: usize = h;
    while i < raw.len() && 48 <= raw[i] && raw[i] <= 57
        invariant
            h <= i <= raw@.len(),
            digit_run(raw@.skip(h as int)) == (i - h) + digit_run(raw@.skip(i as int)),
            forall|k: int| h <= k < i ==> is_digit(#[trigger] raw@[k]),
        decreases raw.len() - i,
    {
        assert(raw@.skip(i as int).drop_first() =~= raw@.skip(i + 1));
        i = i + 1;
    }
    assert(digit_run(raw@.skip(i as int)) == 0);
    let ghost ds = raw@.subrange(h as int, i as int);
    assert forall|k: int| 0 <= k < ds.len() implies is_digit(#[trigger] ds[k]) by {
        assert(ds[k] == raw@[h + k]);
    }
    i
}

/// The value of the digits `raw[h..i]`, if it fits the counter.
fn digits_u32(raw: &[u8], h: usize, i: usize) -> (r: Option<u32>)
    requires
        h <= i <= raw@.len(),
        all_digits(raw@.subrange(h as int, i as int)),
    ensures
        match r {
            Some(v) => v as nat == digits_value(raw@.subrange(h as int, i as int)),
            None => digits_value(raw@.subrange(h as int, i as int)) > u32::MAX,
        },
{
    let ghost whole = raw@.subrange(h as int, i as int);
    let mut acc: u64 = 0;
    let mut j: usize = h;
    while j < i
        invariant
            h <= j <= i <= raw@.len(),
            whole == raw@.subrange(h as int, i as int),
            all_digits(whole),
            acc <= u32::MAX,
            acc == digits_value(raw@.subrange(h as int, j as int)),
        decreases i - j,
    {
        let ghost k: int = j - h;
        assert(whole[k] == raw@[j as int]);
        assert(is_digit(raw@[j as int]));
        let next: u64 = acc * 10 + (raw[j] - 48) as u64;
        let ghost part = raw@.subrange(h as int, j + 1);
        assert(part.drop_last() =~= raw@.subrange(h as int, j as int));
        assert(part.last() == raw@[j as int]);
        if next > 4294967295 {
            proof {
                lemma_prefix_value(whole, k + 1);
                assert(whole.take(k + 1) =~= part);
            }
            return None;
        }
        acc = next;
        j = j + 1;
    }
    assert(raw@.subrange(h as int, j as int) =~= whole);
    Some(acc as u32)
}

/// Reads an envelope from its wire text. Either spelling of the counter's
/// name is accepted; anything that is not such a text is malformed.
pub fn decode_envelope(raw: &[u8]) -> (r: Result<Envelope, DecodeError>)
    ensures
        match r {
            Ok(e) => parse_envelope(raw@) == Some(
                (e.attempts as nat, e.content@, bytes_view(e.output)),
            ),
            Err(err) => err == DecodeError::MalformedEnvelope && parse_envelope(raw@) is None,
        },
{
    let h: usize;
    if matches_at(raw, 0, &header_bytes()) {
        h = 12;
        assert(raw@.take(12) =~= raw@.subrange(0, 12));
    } else if matches_at(raw, 0, &alt_header_bytes()) {
        h = 11;
        assert(raw@.take(12) =~= raw@.subrange(0, 12));
        assert(raw@.take(11) =~= raw@.subrange(0, 11));
        assert(raw@.len() >= 12 ==> raw@.take(12)[10] != header()[10]);
    } else {
        assert(raw@.len() >= 12 ==> raw@.take(12) =~= raw@.subrange(0, 12));
        assert(raw@.len() >= 11 ==> raw@.take(11) =~= raw@.subrange(0, 11));
        return Err(DecodeError::MalformedEnvelope);
    }
    assert(header_len(raw@) == Some(h as nat));
    let ghost after = raw@.skip(h as int);
    let i = digit_end(raw, h);
    let n = i - h;
    let ghost ds = after.take(n as int);
    assert(ds =~= raw@.subrange(h as int, i as int));
    if n == 0 || (n > 1 && raw[h] == 48) {
        return Err(DecodeError::MalformedEnvelope);
    }
    let acc = match digits_u32(raw, h, i) {
        Some(v) => v,
        None => {
            return Err(DecodeError::MalformedEnvelope);
        },
    };
    let ghost rest = after.skip(n as int);
    assert(rest =~= raw@.skip(i as int));
    if !matches_at(raw, i, &middle_bytes()) {
        assert(rest.len() >= 12 ==> rest.take(12) =~= raw@.subrange(i as int, i + 12));
        return Err(DecodeError::MalformedEnvelope);
    }
    assert(rest.take(12) =~= raw@.subrange(i as int, i + 12));
    assert(rest.skip(12) =~= raw@.skip(i + 12));
    let (content, q) = match string_body_at(raw, i + 12) {
        Some(found) => found,
        None => {
            return Err(DecodeError::MalformedEnvelope);
        },
    };
    assert(rest.skip(12 + (q - (i + 12)) + 1 as int) =~= raw@.skip(q + 1));
    if !utf8_valid(content.as_slice()) {
        return Err(DecodeError::MalformedEnvelope);
    }
    match closing_at(raw, q) {
        Some(output) => Ok(Envelope { attempts: acc, content, output }),
        None => Err(DecodeError::MalformedEnvelope),
    }
}

/// Reads what follows the content's closing quote at `q`.
fn closing_at(raw: &[u8], q: usize) -> (r: Option<Option<Vec<u8>>>)
    requires
        q < raw@.len(),
    ensures
        match r {
            Some(o) => read_closing(raw@.skip(q + 1)) == Some(bytes_view(o)),
            None => read_closing(raw@.skip(q + 1)) is None,
        },
{
    let ghost tail = raw@.skip(q + 1);
    let len = raw.len();
    if len - q == 2 && raw[q + 1] == 125 {
        assert(tail =~= seq![125u8]);
        return Some(None);
    }
    assert(tail != seq![125u8]) by {
        if tail == seq![125u8] {
            assert(tail.len() == 1 && tail[0] == 125);
        }
    }
    if len - q >= 12 && raw[len - 1] == 125 && matches_at(raw, q + 1, &output_key_bytes()) {
        assert(tail.take(10) =~= raw@.subrange(q + 1, q + 11));
        let output = copy_range(raw, q + 11, len - 1);
        assert(tail.subrange(10, tail.len() - 1) =~= output@);
        if parses_as_json(output.as_slice()) {
            return Some(Some(output));
        }
        return None;
    }
    proof {
        if tail.len() >= 11 {
            assert(tail.take(10) =~= raw@.subrange(q + 1, q + 11));
            assert(tail.last() == raw@[len - 1]);
        }
    }
    None
}

} // verus!
