//! The relay message codec: the JSON wire format of [`Envelope`] values.
//!
//! An envelope is carried as one UTF-8 text frame. The canonical frame is a
//! JSON object whose first member is the peer name and whose optional second
//! member is the single payload: `{"username":<string>}` for a bare login,
//! `{"username":<string>,"offer":<desc>}` and likewise for `answer`, the
//! tri-state `candidate` (`null` marks end of candidates), and the alternate
//! two-field shape `{"username":<string>,"desc":<desc>}` whose description is
//! tagged by its own kind.
//!
//! `spec_encode` is the mathematical definition of the format; `spec_decode`
//! is its (deterministic) parser. `encode` and `decode` are the executable
//! functions, proved equal to them, and `lemma_round_trip` and
//! `lemma_decode_exact` state that the two are mutually inverse: every valid
//! envelope decodes back from its frame, and every accepted frame is the
//! encoding of the envelope returned.

use vstd::prelude::*;
use vstd::string::StrSliceExecFns;

use crate::envelope::{
    Candidate, CandModel, Envelope, EnvelopeModel, opt_str_view, Payload, PayloadModel, SdModel,
    SdpKind, SessionDescription, wf_char, wf_opt_text, wf_text,
};

verus! {

// ---------------------------------------------------------------------------
// String escaping
// ---------------------------------------------------------------------------

/// How one character appears inside a quoted wire string: the quote, the
/// backslash and the three carried control characters are escaped, everything
/// else stands for itself.
pub open spec fn esc_char(c: char) -> Seq<char> {
    if c == '"' {
        seq!['\\', '"']
    } else if c == '\\' {
        seq!['\\', '\\']
    } else if c == '\n' {
        seq!['\\', 'n']
    } else if c == '\r' {
        seq!['\\', 'r']
    } else if c == '\t' {
        seq!['\\', 't']
    } else {
        seq![c]
    }
}

/// The escaped body of a quoted wire string.
pub open spec fn escape(t: Seq<char>) -> Seq<char>
    decreases t.len(),
{
    if t.len() == 0 {
        Seq::<char>::empty()
    } else {
        esc_char(t[0]) + escape(t.skip(1))
    }
}

/// A quoted wire string: the escaped text between two quote characters.
pub open spec fn quote(t: Seq<char>) -> Seq<char> {
    seq!['"'] + escape(t) + seq!['"']
}

proof fn lemma_escape_snoc(t: Seq<char>, c: char)
    ensures
        escape(t.push(c)) == escape(t) + esc_char(c),
    decreases t.len(),
{
    if t.len() == 0 {
        assert(t.push(c)[0] == c);
        assert(t.push(c).skip(1) =~= Seq::<char>::empty());
        assert(escape(t.push(c)) == esc_char(c) + escape(Seq::<char>::empty()));
        assert(esc_char(c) + Seq::<char>::empty() =~= esc_char(c));
        assert(escape(t) + esc_char(c) =~= esc_char(c));
    } else {
        assert(t.push(c).skip(1) =~= t.skip(1).push(c));
        lemma_escape_snoc(t.skip(1), c);
        assert(escape(t.push(c)) =~= escape(t) + esc_char(c));
    }
}

// ---------------------------------------------------------------------------
// Decimal numbers
// ---------------------------------------------------------------------------

/// The character for one decimal digit.
pub open spec fn digit_char(d: int) -> char {
    if d == 0 { '0' }
    else if d == 1 { '1' }
    else if d == 2 { '2' }
    else if d == 3 { '3' }
    else if d == 4 { '4' }
    else if d == 5 { '5' }
    else if d == 6 { '6' }
    else if d == 7 { '7' }
    else if d == 8 { '8' }
    else { '9' }
}

/// The canonical decimal notation of a non-negative number: no sign, no
/// leading zero.
pub open spec fn dec_digits(n: int) -> Seq<char>
    recommends 0 <= n,
    decreases n,
{
    if n < 10 {
        seq![digit_char(n)]
    } else {
        dec_digits(n / 10) + seq![digit_char(n % 10)]
    }
}

// ---------------------------------------------------------------------------
// The canonical encoding
// ---------------------------------------------------------------------------

/// The wire tag of a description kind, as it appears between the quotes of the
/// `type` member.
pub open spec fn tag_text(k: SdpKind) -> Seq<char> {
    match k {
        SdpKind::Offer => "offer"@,
        SdpKind::Pranswer => "pranswer"@,
        SdpKind::Answer => "answer"@,
        SdpKind::Rollback => "rollback"@,
    }
}

/// A session description on the wire: `{"type":<tag>,"sdp":<string>}`.
pub open spec fn enc_sd(sd: SdModel) -> Seq<char> {
    "{\"type\":\""@ + tag_text(sd.kind) + "\",\"sdp\":"@ + quote(sd.sdp) + "}"@
}

/// An optional string member value: `null` when absent.
pub open spec fn enc_opt_text(o: Option<Seq<char>>) -> Seq<char> {
    match o {
        Some(t) => quote(t),
        None => "null"@,
    }
}

/// An optional number member value: `null` when absent.
pub open spec fn enc_opt_u16(o: Option<u16>) -> Seq<char> {
    match o {
        Some(n) => dec_digits(n as int),
        None => "null"@,
    }
}

/// A candidate on the wire; its optional members are always written, `null`
/// when absent.
pub open spec fn enc_cand(c: CandModel) -> Seq<char> {
    "{\"candidate\":"@ + quote(c.candidate)
        + ",\"sdpMid\":"@ + enc_opt_text(c.sdp_mid)
        + ",\"sdpMLineIndex\":"@ + enc_opt_u16(c.sdp_mline_index)
        + ",\"usernameFragment\":"@ + enc_opt_text(c.username_fragment) + "}"@
}

/// The value of a candidate member: `null` marks the end of candidates.
pub open spec fn enc_cand_value(c: Option<CandModel>) -> Seq<char> {
    match c {
        Some(c) => enc_cand(c),
        None => "null"@,
    }
}

/// The payload part of a frame: nothing for a bare login, otherwise one comma,
/// the member name of the variant, and its value.
pub open spec fn enc_payload(p: PayloadModel) -> Seq<char> {
    match p {
        PayloadModel::Login => Seq::<char>::empty(),
        PayloadModel::Offer(sd) => ",\"offer\":"@ + enc_sd(sd),
        PayloadModel::Answer(sd) => ",\"answer\":"@ + enc_sd(sd),
        PayloadModel::Candidate(c) => ",\"candidate\":"@ + enc_cand_value(c),
        PayloadModel::CombinedDescription(sd) => ",\"desc\":"@ + enc_sd(sd),
    }
}

/// The canonical frame of an envelope.
pub open spec fn spec_encode(m: EnvelopeModel) -> Seq<char> {
    "{\"username\":"@ + quote(m.peer_id) + enc_payload(m.payload) + "}"@
}

// ---------------------------------------------------------------------------
// Executable encoding
// ---------------------------------------------------------------------------

/// Relies on `String: FromIterator<char>`: collecting characters yields a
/// string whose character sequence is exactly the collected sequence.
#[verifier::external_body]
fn chars_to_string(v: &Vec<char>) -> (r: String)
    ensures
        r@ == v@,
{
    v.iter().collect()
}

/// The characters of a string, as a vector.
fn str_chars(s: &str) -> (r: Vec<char>)
    ensures
        r@ == s@,
{
    let n = s.unicode_len();
    let mut r: Vec<char> = Vec::new();
    let mut i: usize = 0;
    while i < n
        invariant
            i <= n,
            n == s@.len(),
            r@ == s@.subrange(0, i as int),
        decreases n - i,
    {
        let c = s.get_char(i);
        r.push(c);
        assert(s@.subrange(0, i as int).push(s@[i as int]) =~= s@.subrange(0, i + 1 as int));
        i += 1;
    }
    assert(r@ =~= s@);
    r
}

/// Appends the characters of a literal.
fn emit_lit(out: &mut Vec<char>, lit: &str)
    ensures
        final(out)@ == old(out)@ + lit@,
{
    let n = lit.unicode_len();
    let mut i: usize = 0;
    while i < n
        invariant
            i <= n,
            n == lit@.len(),
            out@ == old(out)@ + lit@.subrange(0, i as int),
        decreases n - i,
    {
        let c = lit.get_char(i);
        out.push(c);
        assert(lit@.subrange(0, i as int).push(lit@[i as int]) =~= lit@.subrange(
            0,
            i + 1 as int,
        ));
        i += 1;
    }
    assert(out@ =~= old(out)@ + lit@);
}

/// Appends one quoted, escaped string.
fn emit_string(out: &mut Vec<char>, s: &str)
    ensures
        final(out)@ == old(out)@ + quote(s@),
{
    out.push('"');
    let n = s.unicode_len();
    let mut i: usize = 0;
    while i < n
        invariant
            i <= n,
            n == s@.len(),
            out@ == old(out)@ + seq!['"'] + escape(s@.subrange(0, i as int)),
        decreases n - i,
    {
        let c = s.get_char(i);
        if c == '"' {
            out.push('\\');
            out.push('"');
        } else if c == '\\' {
            out.push('\\');
            out.push('\\');
        } else if c == '\n' {
            out.push('\\');
            out.push('n');
        } else if c == '\r' {
            out.push('\\');
            out.push('r');
        } else if c == '\t' {
            out.push('\\');
            out.push('t');
        } else {
            out.push(c);
        }
        proof {
            lemma_escape_snoc(s@.subrange(0, i as int), s@[i as int]);
            assert(s@.subrange(0, i as int).push(s@[i as int]) =~= s@.subrange(0, i + 1 as int));
            assert(out@ =~= old(out)@ + seq!['"'] + escape(s@.subrange(0, i + 1 as int)));
        }
        i += 1;
    }
    out.push('"');
    assert(s@.subrange(0, n as int) =~= s@);
    assert(out@ =~= old(out)@ + quote(s@));
}

/// Appends the canonical decimal notation of a number.
fn emit_u16(out: &mut Vec<char>, n: u16)
    ensures
        final(out)@ == old(out)@ + dec_digits(n as int),
    decreases n,
{
    if n < 10 {
        let c: char = match n {
            0 => '0',
            1 => '1',
            2 => '2',
            3 => '3',
            4 => '4',
            5 => '5',
            6 => '6',
            7 => '7',
            8 => '8',
            _ => '9',
        };
        out.push(c);
        assert(out@ =~= old(out)@ + dec_digits(n as int));
    } else {
        emit_u16(out, n / 10);
        let d = n % 10;
        let c: char = match d {
            0 => '0',
            1 => '1',
            2 => '2',
            3 => '3',
            4 => '4',
            5 => '5',
            6 => '6',
            7 => '7',
            8 => '8',
            _ => '9',
        };
        out.push(c);
        assert(out@ =~= old(out)@ + dec_digits(n as int));
    }
}

/// Appends one session description object.
fn emit_sd(out: &mut Vec<char>, sd: &SessionDescription)
    ensures
        final(out)@ == old(out)@ + enc_sd(sd@),
{
    emit_lit(out, "{\"type\":\"");
    match sd.kind {
        SdpKind::Offer => emit_lit(out, "offer"),
        SdpKind::Pranswer => emit_lit(out, "pranswer"),
        SdpKind::Answer => emit_lit(out, "answer"),
        SdpKind::Rollback => emit_lit(out, "rollback"),
    }
    emit_lit(out, "\",\"sdp\":");
    emit_string(out, self_str(&sd.sdp));
    emit_lit(out, "}");
    assert(out@ =~= old(out)@ + enc_sd(sd@));
}

/// The string slice of a string, under its view.
fn self_str(s: &String) -> (r: &str)
    ensures
        r@ == s@,
{
    s.as_str()
}

/// Appends an optional string member value.
fn emit_opt_string(out: &mut Vec<char>, o: &Option<String>)
    ensures
        final(out)@ == old(out)@ + enc_opt_text(opt_str_view(*o)),
{
    match o {
        Some(s) => emit_string(out, self_str(s)),
        None => emit_lit(out, "null"),
    }
}

/// Appends one candidate object.
fn emit_cand(out: &mut Vec<char>, c: &Candidate)
    ensures
        final(out)@ == old(out)@ + enc_cand(c@),
{
    emit_lit(out, "{\"candidate\":");
    emit_string(out, self_str(&c.candidate));
    emit_lit(out, ",\"sdpMid\":");
    emit_opt_string(out, &c.sdp_mid);
    emit_lit(out, ",\"sdpMLineIndex\":");
    match c.sdp_mline_index {
        Some(n) => emit_u16(out, n),
        None => emit_lit(out, "null"),
    }
    emit_lit(out, ",\"usernameFragment\":");
    emit_opt_string(out, &c.username_fragment);
    emit_lit(out, "}");
    assert(out@ =~= old(out)@ + enc_cand(c@));
}

/// Encodes an envelope as its canonical text frame.
pub fn encode(e: &Envelope) -> (r: String)
    ensures
        r@ == spec_encode(e@),
{
    let mut out: Vec<char> = Vec::new();
    emit_lit(&mut out, "{\"username\":");
    emit_string(&mut out, self_str(&e.peer_id));
    match &e.payload {
        Payload::Login => {},
        Payload::Offer(sd) => {
            emit_lit(&mut out, ",\"offer\":");
            emit_sd(&mut out, sd);
        },
        Payload::Answer(sd) => {
            emit_lit(&mut out, ",\"answer\":");
            emit_sd(&mut out, sd);
        },
        Payload::Candidate(c) => {
            emit_lit(&mut out, ",\"candidate\":");
            match c {
                Some(c) => emit_cand(&mut out, c),
                None => emit_lit(&mut out, "null"),
            }
        },
        Payload::CombinedDescription(sd) => {
            emit_lit(&mut out, ",\"desc\":");
            emit_sd(&mut out, sd);
        },
    }
    emit_lit(&mut out, "}");
    assert(out@ =~= spec_encode(e@));
    chars_to_string(&out)
}

} // verus!

verus! {

// ---------------------------------------------------------------------------
// The parser, at the specification level
// ---------------------------------------------------------------------------

/// The literal `p` occurs in `s` at position `i`.
pub open spec fn is_prefix_at(s: Seq<char>, i: int, p: Seq<char>) -> bool {
    0 <= i && i + p.len() <= s.len() && s.subrange(i, i + p.len()) == p
}

/// The character an escape code stands for, if it is a valid code.
pub open spec fn unesc_code(c: char) -> Option<char> {
    if c == '"' {
        Some('"')
    } else if c == '\\' {
        Some('\\')
    } else if c == 'n' {
        Some('\n')
    } else if c == 'r' {
        Some('\r')
    } else if c == 't' {
        Some('\t')
    } else {
        None
    }
}

/// A character that may stand for itself inside a quoted wire string.
pub open spec fn raw_ok(c: char) -> bool {
    c as u32 >= 32 && c != '"' && c != '\\'
}

/// Scans the body of a quoted string from `i` (just past the opening quote) to
/// its closing quote, undoing escapes; yields the text and the position after
/// the closing quote.
pub open spec fn scan_string(s: Seq<char>, i: int) -> Option<(Seq<char>, int)>
    decreases s.len() - i,
{
    if i < 0 || i >= s.len() {
        None
    } else if s[i] == '"' {
        Some((Seq::<char>::empty(), i + 1))
    } else if s[i] == '\\' {
        if i + 1 < s.len() {
            match unesc_code(s[i + 1]) {
                Some(c) => match scan_string(s, i + 2) {
                    Some((t, e)) => Some((seq![c] + t, e)),
                    None => None,
                },
                None => None,
            }
        } else {
            None
        }
    } else if raw_ok(s[i]) {
        match scan_string(s, i + 1) {
            Some((t, e)) => Some((seq![s[i]] + t, e)),
            None => None,
        }
    } else {
        None
    }
}

/// Parses one quoted string at `i`.
pub open spec fn parse_string(s: Seq<char>, i: int) -> Option<(Seq<char>, int)> {
    if 0 <= i < s.len() && s[i] == '"' {
        scan_string(s, i + 1)
    } else {
        None
    }
}

/// A decimal digit character.
pub open spec fn is_digit(c: char) -> bool {
    c == '0' || c == '1' || c == '2' || c == '3' || c == '4' || c == '5' || c == '6' || c == '7'
        || c == '8' || c == '9'
}

/// The value of one digit character.
pub open spec fn digit_val(c: char) -> int {
    if c == '0' { 0 }
    else if c == '1' { 1 }
    else if c == '2' { 2 }
    else if c == '3' { 3 }
    else if c == '4' { 4 }
    else if c == '5' { 5 }
    else if c == '6' { 6 }
    else if c == '7' { 7 }
    else if c == '8' { 8 }
    else { 9 }
}

/// The end of the digit run that starts at `i`.
pub open spec fn digit_run_end(s: Seq<char>, i: int) -> int
    decreases s.len() - i,
{
    if 0 <= i < s.len() && is_digit(s[i]) {
        digit_run_end(s, i + 1)
    } else {
        i
    }
}

/// The value of a digit sequence read in base ten.
pub open spec fn digits_val(ds: Seq<char>) -> int
    decreases ds.len(),
{
    if ds.len() == 0 {
        0
    } else {
        digits_val(ds.drop_last()) * 10 + digit_val(ds.last())
    }
}

/// Parses one number at `i`: a canonical digit run (no sign, no leading zero)
/// whose value fits the index type.
pub open spec fn parse_u16(s: Seq<char>, i: int) -> Option<(u16, int)> {
    let j = digit_run_end(s, i);
    if j == i {
        None
    } else if s[i] == '0' && j > i + 1 {
        None
    } else if j - i > 5 {
        None
    } else if digits_val(s.subrange(i, j)) > 0xffff {
        None
    } else {
        Some((digits_val(s.subrange(i, j)) as u16, j))
    }
}

/// Parses one session description object at `i`.
pub open spec fn parse_sd(s: Seq<char>, i: int) -> Option<(SdModel, int)> {
    if is_prefix_at(s, i, "{\"type\":\""@) {
        let i1 = i + "{\"type\":\""@.len();
        let kt: Option<(SdpKind, int)> = if is_prefix_at(s, i1, "offer\",\"sdp\":"@) {
            Some((SdpKind::Offer, i1 + "offer\",\"sdp\":"@.len()))
        } else if is_prefix_at(s, i1, "pranswer\",\"sdp\":"@) {
            Some((SdpKind::Pranswer, i1 + "pranswer\",\"sdp\":"@.len()))
        } else if is_prefix_at(s, i1, "answer\",\"sdp\":"@) {
            Some((SdpKind::Answer, i1 + "answer\",\"sdp\":"@.len()))
        } else if is_prefix_at(s, i1, "rollback\",\"sdp\":"@) {
            Some((SdpKind::Rollback, i1 + "rollback\",\"sdp\":"@.len()))
        } else {
            None
        };
        match kt {
            Some((k, i2)) => match parse_string(s, i2) {
                Some((t, i3)) => if is_prefix_at(s, i3, "}"@) {
                    Some((SdModel { kind: k, sdp: t }, i3 + 1))
                } else {
                    None
                },
                None => None,
            },
            None => None,
        }
    } else {
        None
    }
}

/// Parses an optional string member value at `i`: `null` or a quoted string.
pub open spec fn parse_opt_text(s: Seq<char>, i: int) -> Option<(Option<Seq<char>>, int)> {
    if is_prefix_at(s, i, "null"@) {
        Some((None, i + 4))
    } else {
        match parse_string(s, i) {
            Some((t, e)) => Some((Some(t), e)),
            None => None,
        }
    }
}

/// Parses an optional number member value at `i`: `null` or a number.
pub open spec fn parse_opt_u16(s: Seq<char>, i: int) -> Option<(Option<u16>, int)> {
    if is_prefix_at(s, i, "null"@) {
        Some((None, i + 4))
    } else {
        match parse_u16(s, i) {
            Some((n, e)) => Some((Some(n), e)),
            None => None,
        }
    }
}

/// Parses the value of a candidate member at `i`: `null` for end of
/// candidates, or a candidate object.
pub open spec fn parse_cand_value(s: Seq<char>, i: int) -> Option<(Option<CandModel>, int)> {
    if is_prefix_at(s, i, "null"@) {
        Some((None, i + 4))
    } else if is_prefix_at(s, i, "{\"candidate\":"@) {
        match parse_string(s, i + "{\"candidate\":"@.len()) {
            Some((cand, i2)) => if is_prefix_at(s, i2, ",\"sdpMid\":"@) {
                match parse_opt_text(s, i2 + ",\"sdpMid\":"@.len()) {
                    Some((mid, i3)) => if is_prefix_at(s, i3, ",\"sdpMLineIndex\":"@) {
                        match parse_opt_u16(s, i3 + ",\"sdpMLineIndex\":"@.len()) {
                            Some((idx, i4)) => if is_prefix_at(s, i4, ",\"usernameFragment\":"@) {
                                match parse_opt_text(s, i4 + ",\"usernameFragment\":"@.len()) {
                                    Some((uf, i5)) => if is_prefix_at(s, i5, "}"@) {
                                        Some(
                                            (
                                                Some(
                                                    CandModel {
                                                        candidate: cand,
                                                        sdp_mid: mid,
                                                        sdp_mline_index: idx,
                                                        username_fragment: uf,
                                                    },
                                                ),
                                                i5 + 1,
                                            ),
                                        )
                                    } else {
                                        None
                                    },
                                    None => None,
                                }
                            } else {
                                None
                            },
                            None => None,
                        }
                    } else {
                        None
                    },
                    None => None,
                }
            } else {
                None
            },
            None => None,
        }
    } else {
        None
    }
}

/// The parser of the wire format: the envelope a frame denotes, or nothing
/// where the frame is not a canonical envelope.
pub open spec fn spec_decode(s: Seq<char>) -> Option<EnvelopeModel> {
    if !is_prefix_at(s, 0, "{\"username\":"@) {
        None
    } else {
        match parse_string(s, "{\"username\":"@.len() as int) {
            None => None,
            Some((u, p)) => if is_prefix_at(s, p, "}"@) && p + 1 == s.len() {
                Some(EnvelopeModel { peer_id: u, payload: PayloadModel::Login })
            } else if is_prefix_at(s, p, ",\"offer\":"@) {
                match parse_sd(s, p + ",\"offer\":"@.len()) {
                    Some((sd, q)) => if is_prefix_at(s, q, "}"@) && q + 1 == s.len() {
                        Some(EnvelopeModel { peer_id: u, payload: PayloadModel::Offer(sd) })
                    } else {
                        None
                    },
                    None => None,
                }
            } else if is_prefix_at(s, p, ",\"answer\":"@) {
                match parse_sd(s, p + ",\"answer\":"@.len()) {
                    Some((sd, q)) => if is_prefix_at(s, q, "}"@) && q + 1 == s.len() {
                        Some(EnvelopeModel { peer_id: u, payload: PayloadModel::Answer(sd) })
                    } else {
                        None
                    },
                    None => None,
                }
            } else if is_prefix_at(s, p, ",\"candidate\":"@) {
                match parse_cand_value(s, p + ",\"candidate\":"@.len()) {
                    Some((c, q)) => if is_prefix_at(s, q, "}"@) && q + 1 == s.len() {
                        Some(EnvelopeModel { peer_id: u, payload: PayloadModel::Candidate(c) })
                    } else {
                        None
                    },
                    None => None,
                }
            } else if is_prefix_at(s, p, ",\"desc\":"@) {
                match parse_sd(s, p + ",\"desc\":"@.len()) {
                    Some((sd, q)) => if is_prefix_at(s, q, "}"@) && q + 1 == s.len() {
                        Some(
                            EnvelopeModel {
                                peer_id: u,
                                payload: PayloadModel::CombinedDescription(sd),
                            },
                        )
                    } else {
                        None
                    },
                    None => None,
                }
            } else {
                None
            },
        }
    }
}

} // verus!

verus! {

// ---------------------------------------------------------------------------
// Executable decoding
// ---------------------------------------------------------------------------

/// The failure of `decode`: the frame is not a canonical envelope.
#[derive(Clone, Copy, Debug, PartialEq, Eq, Structural)]
pub enum DecodeError {
    MalformedEnvelope,
}

/// Matches a literal at `pos`, yielding the position after it.
fn match_lit(v: &Vec<char>, pos: usize, lit: &str) -> (r: Option<usize>)
    ensures
        match r {
            Some(end) => is_prefix_at(v@, pos as int, lit@) && end == pos + lit@.len()
                && end <= v.len(),
            None => !is_prefix_at(v@, pos as int, lit@),
        },
{
    let n = lit.unicode_len();
    if pos > v.len() || n > v.len() - pos {
        return None;
    }
    let mut j: usize = 0;
    while j < n
        invariant
            j <= n,
            n == lit@.len(),
            pos + n <= v.len(),
            forall|k: int| 0 <= k < j ==> v@[pos + k] == lit@[k],
        decreases n - j,
    {
        if v[pos + j] != lit.get_char(j) {
            proof {
                let jj = j as int;
                assert(v@.subrange(pos as int, pos + n) =~= lit@ ==> v@[pos + jj] == lit@[jj]);
            }
            return None;
        }
        j += 1;
    }
    assert(v@.subrange(pos as int, pos + n) =~= lit@);
    Some(pos + n)
}

/// Maps a scan outcome over an already-read text prefix.
spec fn scan_cont(acc: Seq<char>, r: Option<(Seq<char>, int)>) -> Option<
    (Seq<char>, int),
> {
    match r {
        Some((t, e)) => Some((acc + t, e)),
        None => None,
    }
}

/// Reads one quoted string at `pos`.
fn read_string(v: &Vec<char>, pos: usize) -> (r: Option<(String, usize)>)
    ensures
        match r {
            Some((t, end)) => parse_string(v@, pos as int) == Some((t@, end as int)) && pos < end
                <= v.len(),
            None => parse_string(v@, pos as int) is None,
        },
{
    if pos >= v.len() || v[pos] != '"' {
        return None;
    }
    let mut i: usize = pos + 1;
    let mut out: Vec<char> = Vec::new();
    loop
        invariant
            pos + 1 <= i <= v.len(),
            pos < v.len(),
            v@[pos as int] == '"',
            scan_string(v@, pos + 1 as int) == scan_cont(out@, scan_string(v@, i as int)),
        decreases v.len() - i,
    {
        if i >= v.len() {
            return None;
        }
        let c = v[i];
        if c == '"' {
            assert(scan_string(v@, i as int) == Some((Seq::<char>::empty(), i + 1 as int)));
            assert(out@ + Seq::<char>::empty() =~= out@);
            let t = chars_to_string(&out);
            return Some((t, i + 1));
        }
        if c == '\\' {
            if i + 1 >= v.len() {
                return None;
            }
            let d = v[i + 1];
            let u: char = if d == '"' {
                '"'
            } else if d == '\\' {
                '\\'
            } else if d == 'n' {
                '\n'
            } else if d == 'r' {
                '\r'
            } else if d == 't' {
                '\t'
            } else {
                return None;
            };
            proof {
                assert(unesc_code(v@[i + 1]) == Some(u));
                if let Some((t, e)) = scan_string(v@, i + 2 as int) {
                    assert((out@ + seq![u]) + t =~= out@ + (seq![u] + t));
                }
            }
            out.push(u);
            i += 2;
        } else if (c as u32) >= 32 {
            proof {
                assert(raw_ok(v@[i as int]));
                if let Some((t, e)) = scan_string(v@, i + 1 as int) {
                    assert((out@ + seq![c]) + t =~= out@ + (seq![c] + t));
                }
            }
            out.push(c);
            i += 1;
        } else {
            assert(scan_string(v@, i as int) is None);
            return None;
        }
    }
}

/// Whether a character is a decimal digit.
fn digit_check(c: char) -> (r: bool)
    ensures
        r == is_digit(c),
{
    c == '0' || c == '1' || c == '2' || c == '3' || c == '4' || c == '5' || c == '6' || c == '7'
        || c == '8' || c == '9'
}

/// The value of a digit character.
fn digit_of(c: char) -> (r: u32)
    requires
        is_digit(c),
    ensures
        r as int == digit_val(c),
        r <= 9,
{
    if c == '0' { 0 }
    else if c == '1' { 1 }
    else if c == '2' { 2 }
    else if c == '3' { 3 }
    else if c == '4' { 4 }
    else if c == '5' { 5 }
    else if c == '6' { 6 }
    else if c == '7' { 7 }
    else if c == '8' { 8 }
    else { 9 }
}

/// Ten to a power.
spec fn pow10(n: nat) -> int
    decreases n,
{
    if n == 0 {
        1
    } else {
        10 * pow10((n - 1) as nat)
    }
}

proof fn lemma_digits_val_bound(ds: Seq<char>)
    ensures
        0 <= digits_val(ds) < pow10(ds.len()),
    decreases ds.len(),
{
    if ds.len() == 0 {
    } else {
        lemma_digits_val_bound(ds.drop_last());
    }
}

/// Reads one canonical number at `pos`.
fn read_u16(v: &Vec<char>, pos: usize) -> (r: Option<(u16, usize)>)
    ensures
        match r {
            Some((n, end)) => parse_u16(v@, pos as int) == Some((n, end as int)) && pos < end
                <= v.len(),
            None => parse_u16(v@, pos as int) is None,
        },
{
    if pos >= v.len() {
        return None;
    }
    let mut j: usize = pos;
    while j < v.len() && digit_check(v[j])
        invariant
            pos <= j <= v.len(),
            digit_run_end(v@, pos as int) == digit_run_end(v@, j as int),
            forall|k: int| pos <= k < j ==> is_digit(#[trigger] v@[k]),
        decreases v.len() - j,
    {
        j += 1;
    }
    assert(digit_run_end(v@, j as int) == j);
    if j == pos {
        return None;
    }
    if v[pos] == '0' && j > pos + 1 {
        return None;
    }
    if j - pos > 5 {
        return None;
    }
    let mut val: u32 = 0;
    let mut k: usize = pos;
    proof {
        assert(v@.subrange(pos as int, pos as int) =~= Seq::<char>::empty());
        assert(pow10(0) == 1);
        assert(pow10(1) == 10);
        assert(pow10(2) == 100);
        assert(pow10(3) == 1000);
        assert(pow10(4) == 10000);
        assert(pow10(5) == 100000);
    }
    while k < j
        invariant
            pos <= k <= j <= v.len(),
            j - pos <= 5,
            forall|q: int| pos <= q < j ==> is_digit(#[trigger] v@[q]),
            val as int == digits_val(v@.subrange(pos as int, k as int)),
            pow10(0) == 1 && pow10(1) == 10 && pow10(2) == 100 && pow10(3) == 1000 && pow10(4)
                == 10000 && pow10(5) == 100000,
        decreases j - k,
    {
        let d = digit_of(v[k]);
        proof {
            lemma_digits_val_bound(v@.subrange(pos as int, k as int));
            assert(v@.subrange(pos as int, k as int).len() == k - pos <= 4);
            assert(pow10((k - pos) as nat) <= pow10(4)) by {
                if k - pos <= 0 {
                } else if k - pos == 1 {
                } else if k - pos == 2 {
                } else if k - pos == 3 {
                } else {
                }
            }
            assert(v@.subrange(pos as int, k + 1 as int).drop_last() =~= v@.subrange(
                pos as int,
                k as int,
            ));
            assert(v@.subrange(pos as int, k + 1 as int).last() == v@[k as int]);
        }
        val = val * 10 + d;
        k += 1;
    }
    assert(v@.subrange(pos as int, j as int) =~= v@.subrange(pos as int, k as int));
    if val > 0xffff {
        return None;
    }
    Some((val as u16, j))
}

/// Reads one session description object at `pos`.
fn read_sd(v: &Vec<char>, pos: usize) -> (r: Option<(SessionDescription, usize)>)
    ensures
        match r {
            Some((sd, end)) => parse_sd(v@, pos as int) == Some((sd@, end as int)) && end
                <= v.len(),
            None => parse_sd(v@, pos as int) is None,
        },
{
    proof {
        reveal_strlit("}");
    }
    let i1 = match match_lit(v, pos, "{\"type\":\"") {
        Some(i1) => i1,
        None => {
            return None;
        },
    };
    let (kind, i2) = if let Some(i2) = match_lit(v, i1, "offer\",\"sdp\":") {
        (SdpKind::Offer, i2)
    } else if let Some(i2) = match_lit(v, i1, "pranswer\",\"sdp\":") {
        (SdpKind::Pranswer, i2)
    } else if let Some(i2) = match_lit(v, i1, "answer\",\"sdp\":") {
        (SdpKind::Answer, i2)
    } else if let Some(i2) = match_lit(v, i1, "rollback\",\"sdp\":") {
        (SdpKind::Rollback, i2)
    } else {
        return None;
    };
    let (sdp, i3) = match read_string(v, i2) {
        Some(r) => r,
        None => {
            return None;
        },
    };
    match match_lit(v, i3, "}") {
        Some(i4) => Some((SessionDescription { kind, sdp }, i4)),
        None => None,
    }
}

/// Reads an optional string member value at `pos`.
fn read_opt_string(v: &Vec<char>, pos: usize) -> (r: Option<(Option<String>, usize)>)
    ensures
        match r {
            Some((o, end)) => parse_opt_text(v@, pos as int) == Some(
                (opt_str_view(o), end as int),
            ) && end <= v.len(),
            None => parse_opt_text(v@, pos as int) is None,
        },
{
    proof {
        reveal_strlit("null");
    }
    if let Some(e) = match_lit(v, pos, "null") {
        return Some((None, e));
    }
    match read_string(v, pos) {
        Some((t, e)) => Some((Some(t), e)),
        None => None,
    }
}

/// Reads an optional number member value at `pos`.
fn read_opt_u16(v: &Vec<char>, pos: usize) -> (r: Option<(Option<u16>, usize)>)
    ensures
        match r {
            Some((o, end)) => parse_opt_u16(v@, pos as int) == Some((o, end as int)) && end
                <= v.len(),
            None => parse_opt_u16(v@, pos as int) is None,
        },
{
    proof {
        reveal_strlit("null");
    }
    if let Some(e) = match_lit(v, pos, "null") {
        return Some((None, e));
    }
    match read_u16(v, pos) {
        Some((n, e)) => Some((Some(n), e)),
        None => None,
    }
}

/// The view of an optional candidate.
spec fn opt_cand_view(o: Option<Candidate>) -> Option<CandModel> {
    match o {
        Some(c) => Some(c@),
        None => None,
    }
}

/// Reads the value of a candidate member at `pos`.
fn read_cand_value(v: &Vec<char>, pos: usize) -> (r: Option<(Option<Candidate>, usize)>)
    ensures
        match r {
            Some((o, end)) => parse_cand_value(v@, pos as int) == Some(
                (opt_cand_view(o), end as int),
            ) && end <= v.len(),
            None => parse_cand_value(v@, pos as int) is None,
        },
{
    proof {
        reveal_strlit("null");
        reveal_strlit("}");
    }
    if let Some(e) = match_lit(v, pos, "null") {
        return Some((None, e));
    }
    let i1 = match match_lit(v, pos, "{\"candidate\":") {
        Some(i1) => i1,
        None => {
            return None;
        },
    };
    let (cand, i2) = match read_string(v, i1) {
        Some(r) => r,
        None => {
            return None;
        },
    };
    let i2b = match match_lit(v, i2, ",\"sdpMid\":") {
        Some(p) => p,
        None => {
            return None;
        },
    };
    let (mid, i3) = match read_opt_string(v, i2b) {
        Some(r) => r,
        None => {
            return None;
        },
    };
    let i3b = match match_lit(v, i3, ",\"sdpMLineIndex\":") {
        Some(p) => p,
        None => {
            return None;
        },
    };
    let (idx, i4) = match read_opt_u16(v, i3b) {
        Some(r) => r,
        None => {
            return None;
        },
    };
    let i4b = match match_lit(v, i4, ",\"usernameFragment\":") {
        Some(p) => p,
        None => {
            return None;
        },
    };
    let (uf, i5) = match read_opt_string(v, i4b) {
        Some(r) => r,
        None => {
            return None;
        },
    };
    match match_lit(v, i5, "}") {
        Some(i6) => Some(
            (
                Some(
                    Candidate {
                        candidate: cand,
                        sdp_mid: mid,
                        sdp_mline_index: idx,
                        username_fragment: uf,
                    },
                ),
                i6,
            ),
        ),
        None => None,
    }
}

fn decode_frame(s: &str) -> (r: Result<Envelope, DecodeError>)
    ensures
        match r {
            Ok(e) => spec_decode(s@) == Some(e@),
            Err(_) => spec_decode(s@) is None,
        },
{
    proof {
        reveal_strlit("}");
    }
    let v = str_chars(s);
    let i0 = match match_lit(&v, 0, "{\"username\":") {
        Some(p) => p,
        None => {
            return Err(DecodeError::MalformedEnvelope);
        },
    };
    let (u, p) = match read_string(&v, i0) {
        Some(r) => r,
        None => {
            return Err(DecodeError::MalformedEnvelope);
        },
    };
    if let Some(q) = match_lit(&v, p, "}") {
        if q == v.len() {
            return Ok(Envelope { peer_id: u, payload: Payload::Login });
        }
    }
    if let Some(p1) = match_lit(&v, p, ",\"offer\":") {
        return match read_sd(&v, p1) {
            Some((sd, q)) => match match_lit(&v, q, "}") {
                Some(q1) if q1 == v.len() => Ok(
                    Envelope { peer_id: u, payload: Payload::Offer(sd) },
                ),
                _ => Err(DecodeError::MalformedEnvelope),
            },
            None => Err(DecodeError::MalformedEnvelope),
        };
    }
    if let Some(p1) = match_lit(&v, p, ",\"answer\":") {
        return match read_sd(&v, p1) {
            Some((sd, q)) => match match_lit(&v, q, "}") {
                Some(q1) if q1 == v.len() => Ok(
                    Envelope { peer_id: u, payload: Payload::Answer(sd) },
                ),
                _ => Err(DecodeError::MalformedEnvelope),
            },
            None => Err(DecodeError::MalformedEnvelope),
        };
    }
    if let Some(p1) = match_lit(&v, p, ",\"candidate\":") {
        return match read_cand_value(&v, p1) {
            Some((c, q)) => match match_lit(&v, q, "}") {
                Some(q1) if q1 == v.len() => Ok(
                    Envelope { peer_id: u, payload: Payload::Candidate(c) },
                ),
                _ => Err(DecodeError::MalformedEnvelope),
            },
            None => Err(DecodeError::MalformedEnvelope),
        };
    }
    if let Some(p1) = match_lit(&v, p, ",\"desc\":") {
        return match read_sd(&v, p1) {
            Some((sd, q)) => match match_lit(&v, q, "}") {
                Some(q1) if q1 == v.len() => Ok(
                    Envelope { peer_id: u, payload: Payload::CombinedDescription(sd) },
                ),
                _ => Err(DecodeError::MalformedEnvelope),
            },
            None => Err(DecodeError::MalformedEnvelope),
        };
    }
    Err(DecodeError::MalformedEnvelope)
}

} // verus!

verus! {

// ---------------------------------------------------------------------------
// The codec laws
// ---------------------------------------------------------------------------

proof fn lemma_prefix_split(s: Seq<char>, i: int, a: Seq<char>, b: Seq<char>)
    requires
        is_prefix_at(s, i, a + b),
    ensures
        is_prefix_at(s, i, a),
        is_prefix_at(s, i + a.len(), b),
{
    assert(s.subrange(i, i + a.len()) =~= (a + b).subrange(0, a.len() as int));
    assert((a + b).subrange(0, a.len() as int) =~= a);
    assert(s.subrange(i + a.len(), i + a.len() + b.len()) =~= (a + b).subrange(
        a.len() as int,
        (a + b).len() as int,
    ));
    assert((a + b).subrange(a.len() as int, (a + b).len() as int) =~= b);
}

proof fn lemma_prefix_index(s: Seq<char>, i: int, p: Seq<char>, k: int)
    requires
        is_prefix_at(s, i, p),
        0 <= k < p.len(),
    ensures
        s[i + k] == p[k],
{
    assert(s.subrange(i, i + p.len())[k] == s[i + k]);
}

proof fn lemma_wf_text_skip(t: Seq<char>)
    requires
        wf_text(t),
        t.len() > 0,
    ensures
        wf_text(t.skip(1)),
{
    assert forall|k: int| 0 <= k < t.skip(1).len() implies wf_char(#[trigger] t.skip(1)[k]) by {
        assert(t.skip(1)[k] == t[k + 1]);
    }
}

proof fn lemma_scan_complete(s: Seq<char>, i: int, t: Seq<char>)
    requires
        wf_text(t),
        is_prefix_at(s, i, escape(t) + seq!['"']),
    ensures
        scan_string(s, i) == Some((t, i + escape(t).len() + 1)),
    decreases t.len(),
{
    if t.len() == 0 {
        assert(escape(t) + seq!['"'] =~= seq!['"']);
        lemma_prefix_index(s, i, seq!['"'], 0);
        assert(s[i] == '"');
        assert(scan_string(s, i) == Some((Seq::<char>::empty(), i + 1)));
        assert(t =~= Seq::<char>::empty());
    } else {
        let c = t[0];
        let t1 = t.skip(1);
        lemma_wf_text_skip(t);
        assert(wf_char(c));
        assert(escape(t) == esc_char(c) + escape(t1));
        assert(seq![c] + t1 =~= t);
        if c == '"' || c == '\\' || c == '\n' || c == '\r' || c == '\t' {
            let code = esc_char(c)[1];
            assert(esc_char(c) =~= seq!['\\', code]);
            assert(escape(t) + seq!['"'] =~= esc_char(c) + (escape(t1) + seq!['"']));
            lemma_prefix_split(s, i, esc_char(c), escape(t1) + seq!['"']);
            lemma_prefix_index(s, i, esc_char(c), 0);
            lemma_prefix_index(s, i, esc_char(c), 1);
            assert(s[i] == '\\');
            assert(s[i + 1] == code);
            assert(unesc_code(code) == Some(c));
            lemma_scan_complete(s, i + 2, t1);
            assert(scan_string(s, i) == Some((seq![c] + t1, i + 2 + escape(t1).len() + 1)));
        } else {
            assert(esc_char(c) =~= seq![c]);
            assert(c as u32 >= 32);
            assert(raw_ok(c));
            assert(escape(t) + seq!['"'] =~= seq![c] + (escape(t1) + seq!['"']));
            lemma_prefix_split(s, i, seq![c], escape(t1) + seq!['"']);
            lemma_prefix_index(s, i, seq![c], 0);
            assert(s[i] == c);
            lemma_scan_complete(s, i + 1, t1);
            assert(scan_string(s, i) == Some((seq![c] + t1, i + 1 + escape(t1).len() + 1)));
        }
    }
}

proof fn lemma_parse_string_complete(s: Seq<char>, i: int, t: Seq<char>)
    requires
        wf_text(t),
        is_prefix_at(s, i, quote(t)),
    ensures
        parse_string(s, i) == Some((t, i + quote(t).len())),
{
    assert(quote(t) =~= seq!['"'] + (escape(t) + seq!['"']));
    lemma_prefix_split(s, i, seq!['"'], escape(t) + seq!['"']);
    lemma_prefix_index(s, i, seq!['"'], 0);
    assert(s[i] == '"');
    lemma_scan_complete(s, i + 1, t);
}

proof fn lemma_dec_digits_props(n: int)
    requires
        0 <= n,
    ensures
        dec_digits(n).len() >= 1,
        forall|k: int| 0 <= k < dec_digits(n).len() ==> is_digit(#[trigger] dec_digits(n)[k]),
        dec_digits(n)[0] == '0' <==> n == 0,
    decreases n,
{
    if n < 10 {
    } else {
        lemma_dec_digits_props(n / 10);
        assert forall|k: int| 0 <= k < dec_digits(n).len() implies is_digit(
            #[trigger] dec_digits(n)[k],
        ) by {
            if k < dec_digits(n / 10).len() {
                assert(dec_digits(n)[k] == dec_digits(n / 10)[k]);
            } else {
                assert(dec_digits(n)[k] == digit_char(n % 10));
            }
        }
        assert(dec_digits(n)[0] == dec_digits(n / 10)[0]);
    }
}

proof fn lemma_dec_digits_len(n: int, k: nat)
    requires
        0 <= n < pow10(k),
        k >= 1,
    ensures
        dec_digits(n).len() <= k,
    decreases k,
{
    if n < 10 {
    } else {
        assert(pow10(k) == 10 * pow10((k - 1) as nat));
        assert(k >= 2) by {
            if k == 1 {
                assert(pow10(1nat) == 10 * pow10(0nat));
                assert(pow10(0nat) == 1);
            }
        }
        lemma_dec_digits_len(n / 10, (k - 1) as nat);
    }
}

proof fn lemma_digits_val_of_dec(n: int)
    requires
        0 <= n,
    ensures
        digits_val(dec_digits(n)) == n,
    decreases n,
{
    if n < 10 {
        assert(dec_digits(n).drop_last() =~= Seq::<char>::empty());
        assert(dec_digits(n).last() == digit_char(n));
        assert(digits_val(Seq::<char>::empty()) == 0);
        assert(digits_val(dec_digits(n)) == digit_val(digit_char(n)));
        assert(digit_val(digit_char(n)) == n);
    } else {
        lemma_digits_val_of_dec(n / 10);
        assert(dec_digits(n).drop_last() =~= dec_digits(n / 10));
        assert(dec_digits(n).last() == digit_char(n % 10));
        assert(digit_val(digit_char(n % 10)) == n % 10);
        assert(digits_val(dec_digits(n)) == (n / 10) * 10 + n % 10);
        assert((n / 10) * 10 + n % 10 == n) by (nonlinear_arith);
    }
}

proof fn lemma_run_end(s: Seq<char>, i: int, j: int)
    requires
        0 <= i <= j <= s.len(),
        forall|k: int| i <= k < j ==> is_digit(#[trigger] s[k]),
        j == s.len() || !is_digit(s[j]),
    ensures
        digit_run_end(s, i) == j,
    decreases j - i,
{
    if i == j {
    } else {
        lemma_run_end(s, i + 1, j);
    }
}

proof fn lemma_parse_u16_complete(s: Seq<char>, i: int, n: u16)
    requires
        is_prefix_at(s, i, dec_digits(n as int)),
        i + dec_digits(n as int).len() == s.len() || !is_digit(
            s[i + dec_digits(n as int).len()],
        ),
    ensures
        parse_u16(s, i) == Some((n, i + dec_digits(n as int).len())),
{
    let d = dec_digits(n as int);
    lemma_dec_digits_props(n as int);
    assert forall|k: int| i <= k < i + d.len() implies is_digit(#[trigger] s[k]) by {
        lemma_prefix_index(s, i, d, k - i);
    }
    lemma_run_end(s, i, i + d.len());
    lemma_prefix_index(s, i, d, 0);
    assert(s[i] == d[0]);
    assert(pow10(0nat) == 1);
    assert(pow10(1nat) == 10);
    assert(pow10(2nat) == 100);
    assert(pow10(3nat) == 1000);
    assert(pow10(4nat) == 10000);
    assert(pow10(5nat) == 100000);
    lemma_dec_digits_len(n as int, 5nat);
    assert(s.subrange(i, i + d.len()) == d);
    lemma_digits_val_of_dec(n as int);
    if n == 0 {
        assert(d.len() == 1);
    } else {
        assert(s[i] != '0');
    }
}

} // verus!

verus! {

proof fn lemma_parse_sd_complete(s: Seq<char>, i: int, sd: SdModel)
    requires
        sd.wf(),
        is_prefix_at(s, i, enc_sd(sd)),
    ensures
        parse_sd(s, i) == Some((sd, i + enc_sd(sd).len())),
{
    reveal_strlit("{\"type\":\"");
    reveal_strlit("offer");
    reveal_strlit("pranswer");
    reveal_strlit("answer");
    reveal_strlit("rollback");
    reveal_strlit("\",\"sdp\":");
    reveal_strlit("offer\",\"sdp\":");
    reveal_strlit("pranswer\",\"sdp\":");
    reveal_strlit("answer\",\"sdp\":");
    reveal_strlit("rollback\",\"sdp\":");
    reveal_strlit("}");
    let a = "{\"type\":\""@;
    let tb = tag_text(sd.kind) + "\",\"sdp\":"@;
    let rest = quote(sd.sdp) + "}"@;
    assert(enc_sd(sd) =~= a + (tb + rest));
    lemma_prefix_split(s, i, a, tb + rest);
    let i1 = i + a.len();
    lemma_prefix_split(s, i1, tb, rest);
    match sd.kind {
        SdpKind::Offer => {
            assert("offer\",\"sdp\":"@ =~= tag_text(sd.kind) + "\",\"sdp\":"@);
        },
        SdpKind::Pranswer => {
            assert("pranswer\",\"sdp\":"@ =~= tag_text(sd.kind) + "\",\"sdp\":"@);
            lemma_prefix_index(s, i1, tb, 0);
            if is_prefix_at(s, i1, "offer\",\"sdp\":"@) {
                lemma_prefix_index(s, i1, "offer\",\"sdp\":"@, 0);
            }
        },
        SdpKind::Answer => {
            assert("answer\",\"sdp\":"@ =~= tag_text(sd.kind) + "\",\"sdp\":"@);
            lemma_prefix_index(s, i1, tb, 0);
            if is_prefix_at(s, i1, "offer\",\"sdp\":"@) {
                lemma_prefix_index(s, i1, "offer\",\"sdp\":"@, 0);
            }
            if is_prefix_at(s, i1, "pranswer\",\"sdp\":"@) {
                lemma_prefix_index(s, i1, "pranswer\",\"sdp\":"@, 0);
            }
        },
        SdpKind::Rollback => {
            assert("rollback\",\"sdp\":"@ =~= tag_text(sd.kind) + "\",\"sdp\":"@);
            lemma_prefix_index(s, i1, tb, 0);
            if is_prefix_at(s, i1, "offer\",\"sdp\":"@) {
                lemma_prefix_index(s, i1, "offer\",\"sdp\":"@, 0);
            }
            if is_prefix_at(s, i1, "pranswer\",\"sdp\":"@) {
                lemma_prefix_index(s, i1, "pranswer\",\"sdp\":"@, 0);
            }
            if is_prefix_at(s, i1, "answer\",\"sdp\":"@) {
                lemma_prefix_index(s, i1, "answer\",\"sdp\":"@, 0);
            }
        },
    }
    let i2 = i1 + tb.len();
    lemma_prefix_split(s, i2, quote(sd.sdp), "}"@);
    lemma_parse_string_complete(s, i2, sd.sdp);
    let i3 = i2 + quote(sd.sdp).len();
    lemma_prefix_index(s, i3, "}"@, 0);
    assert(parse_sd(s, i) == Some((SdModel { kind: sd.kind, sdp: sd.sdp }, i3 + 1)));
    assert(SdModel { kind: sd.kind, sdp: sd.sdp } =~= sd);
    assert(enc_sd(sd).len() == a.len() + tb.len() + quote(sd.sdp).len() + 1);
}

proof fn lemma_parse_opt_text_complete(s: Seq<char>, i: int, o: Option<Seq<char>>)
    requires
        wf_opt_text(o),
        is_prefix_at(s, i, enc_opt_text(o)),
    ensures
        parse_opt_text(s, i) == Some((o, i + enc_opt_text(o).len())),
{
    reveal_strlit("null");
    match o {
        None => {
            assert(enc_opt_text(o) == "null"@);
        },
        Some(t) => {
            if is_prefix_at(s, i, "null"@) {
                lemma_prefix_index(s, i, "null"@, 0);
                lemma_prefix_index(s, i, quote(t), 0);
                assert(quote(t)[0] == '"');
                assert(false);
            }
            lemma_parse_string_complete(s, i, t);
        },
    }
}

proof fn lemma_parse_opt_u16_complete(s: Seq<char>, i: int, o: Option<u16>)
    requires
        is_prefix_at(s, i, enc_opt_u16(o)),
        i + enc_opt_u16(o).len() == s.len() || !is_digit(s[i + enc_opt_u16(o).len()]),
    ensures
        parse_opt_u16(s, i) == Some((o, i + enc_opt_u16(o).len())),
{
    reveal_strlit("null");
    match o {
        None => {
            assert(enc_opt_u16(o) == "null"@);
        },
        Some(n) => {
            lemma_dec_digits_props(n as int);
            if is_prefix_at(s, i, "null"@) {
                lemma_prefix_index(s, i, "null"@, 0);
                lemma_prefix_index(s, i, dec_digits(n as int), 0);
                assert(is_digit(dec_digits(n as int)[0]));
                assert(false);
            }
            lemma_parse_u16_complete(s, i, n);
        },
    }
}

#[verifier::rlimit(100)]
proof fn lemma_parse_cand_value_complete(s: Seq<char>, i: int, o: Option<CandModel>)
    requires
        match o {
            Some(c) => c.wf(),
            None => true,
        },
        is_prefix_at(s, i, enc_cand_value(o)),
        i + enc_cand_value(o).len() == s.len() || !is_digit(s[i + enc_cand_value(o).len()]),
    ensures
        parse_cand_value(s, i) == Some((o, i + enc_cand_value(o).len())),
{
    reveal_strlit("null");
    reveal_strlit("{\"candidate\":");
    reveal_strlit(",\"sdpMid\":");
    reveal_strlit(",\"sdpMLineIndex\":");
    reveal_strlit(",\"usernameFragment\":");
    reveal_strlit("}");
    match o {
        None => {
            assert(enc_cand_value(o) == "null"@);
        },
        Some(c) => {
            let l1 = "{\"candidate\":"@;
            let l2 = ",\"sdpMid\":"@;
            let l3 = ",\"sdpMLineIndex\":"@;
            let l4 = ",\"usernameFragment\":"@;
            let l5 = "}"@;
            let q1 = quote(c.candidate);
            let q2 = enc_opt_text(c.sdp_mid);
            let q3 = enc_opt_u16(c.sdp_mline_index);
            let q4 = enc_opt_text(c.username_fragment);
            assert(enc_cand(c) =~= l1 + (q1 + (l2 + (q2 + (l3 + (q3 + (l4 + (q4 + l5))))))));
            if is_prefix_at(s, i, "null"@) {
                lemma_prefix_index(s, i, "null"@, 0);
                lemma_prefix_index(s, i, enc_cand(c), 0);
                assert(false);
            }
            lemma_prefix_split(s, i, l1, q1 + (l2 + (q2 + (l3 + (q3 + (l4 + (q4 + l5)))))));
            let i1 = i + l1.len();
            lemma_prefix_split(s, i1, q1, l2 + (q2 + (l3 + (q3 + (l4 + (q4 + l5))))));
            lemma_parse_string_complete(s, i1, c.candidate);
            let i2 = i1 + q1.len();
            lemma_prefix_split(s, i2, l2, q2 + (l3 + (q3 + (l4 + (q4 + l5)))));
            let i2b = i2 + l2.len();
            lemma_prefix_split(s, i2b, q2, l3 + (q3 + (l4 + (q4 + l5))));
            lemma_parse_opt_text_complete(s, i2b, c.sdp_mid);
            let i3 = i2b + q2.len();
            lemma_prefix_split(s, i3, l3, q3 + (l4 + (q4 + l5)));
            let i3b = i3 + l3.len();
            lemma_prefix_split(s, i3b, q3, l4 + (q4 + l5));
            let i4 = i3b + q3.len();
            lemma_prefix_split(s, i4, l4, q4 + l5);
            lemma_prefix_index(s, i4, l4, 0);
            assert(s[i4] == ',');
            assert(!is_digit(','));
            lemma_parse_opt_u16_complete(s, i3b, c.sdp_mline_index);
            let i4b = i4 + l4.len();
            lemma_prefix_split(s, i4b, q4, l5);
            lemma_parse_opt_text_complete(s, i4b, c.username_fragment);
            let i5 = i4b + q4.len();
            lemma_prefix_index(s, i5, l5, 0);
            assert(parse_cand_value(s, i) == Some(
                (
                    Some(
                        CandModel {
                            candidate: c.candidate,
                            sdp_mid: c.sdp_mid,
                            sdp_mline_index: c.sdp_mline_index,
                            username_fragment: c.username_fragment,
                        },
                    ),
                    i5 + 1,
                ),
            ));
            assert(CandModel {
                candidate: c.candidate,
                sdp_mid: c.sdp_mid,
                sdp_mline_index: c.sdp_mline_index,
                username_fragment: c.username_fragment,
            } =~= c);
            assert(enc_cand(c).len() == l1.len() + q1.len() + l2.len() + q2.len() + l3.len()
                + q3.len() + l4.len() + q4.len() + 1);
        },
    }
}

/// Facts established by parsing the leading username member of a canonical
/// frame: the frame's total length and the username parse.
proof fn lemma_rt_prelude(m: EnvelopeModel)
    requires
        m.wf(),
    ensures
        parse_string(spec_encode(m), "{\"username\":"@.len() as int) == Some(
            (m.peer_id, ("{\"username\":"@.len() + quote(m.peer_id).len()) as int),
        ),
        is_prefix_at(
            spec_encode(m),
            ("{\"username\":"@.len() + quote(m.peer_id).len()) as int,
            enc_payload(m.payload) + "}"@,
        ),
        spec_encode(m).len() == "{\"username\":"@.len() + quote(m.peer_id).len() + enc_payload(
            m.payload,
        ).len() + 1,
        is_prefix_at(spec_encode(m), 0, "{\"username\":"@),
{
    reveal_strlit("}");
    let s = spec_encode(m);
    let l = "{\"username\":"@;
    let q = quote(m.peer_id);
    let pay = enc_payload(m.payload);
    assert(s =~= l + (q + (pay + "}"@)));
    assert(is_prefix_at(s, 0, l + (q + (pay + "}"@)))) by {
        assert(s.subrange(0, s.len() as int) =~= s);
    }
    lemma_prefix_split(s, 0, l, q + (pay + "}"@));
    lemma_prefix_split(s, l.len() as int, q, pay + "}"@);
    lemma_parse_string_complete(s, l.len() as int, m.peer_id);
    assert("}"@.len() == 1);
}

/// The payload branch taken by the parser is the one the payload was encoded
/// with: the members' first characters already tell them apart.
proof fn lemma_rt_payload(m: EnvelopeModel)
    requires
        m.wf(),
    ensures
        spec_decode(spec_encode(m)) == Some(m),
{
    reveal_strlit("{\"username\":");
    reveal_strlit(",\"offer\":");
    reveal_strlit(",\"answer\":");
    reveal_strlit(",\"candidate\":");
    reveal_strlit(",\"desc\":");
    reveal_strlit("}");
    lemma_rt_prelude(m);
    let s = spec_encode(m);
    let l = "{\"username\":"@;
    let q = quote(m.peer_id);
    let pay = enc_payload(m.payload);
    let p = l.len() + q.len();
    match m.payload {
        PayloadModel::Login => {
            assert(pay =~= Seq::<char>::empty());
            assert(pay + "}"@ =~= "}"@);
            lemma_prefix_index(s, p as int, "}"@, 0);
            assert(spec_decode(s) == Some(
                EnvelopeModel { peer_id: m.peer_id, payload: PayloadModel::Login },
            ));
            assert(EnvelopeModel { peer_id: m.peer_id, payload: PayloadModel::Login } =~= m);
        },
        PayloadModel::Offer(sd) => {
            let key = ",\"offer\":"@;
            assert(pay + "}"@ =~= key + (enc_sd(sd) + "}"@));
            lemma_prefix_split(s, p as int, key, enc_sd(sd) + "}"@);
            lemma_prefix_index(s, p as int, key, 0);
            if is_prefix_at(s, p as int, "}"@) {
                lemma_prefix_index(s, p as int, "}"@, 0);
            }
            let p1 = p + key.len();
            lemma_prefix_split(s, p1 as int, enc_sd(sd), "}"@);
            lemma_parse_sd_complete(s, p1 as int, sd);
            let e = p1 + enc_sd(sd).len();
            lemma_prefix_index(s, e as int, "}"@, 0);
            assert(spec_decode(s) == Some(
                EnvelopeModel { peer_id: m.peer_id, payload: PayloadModel::Offer(sd) },
            ));
            assert(EnvelopeModel { peer_id: m.peer_id, payload: PayloadModel::Offer(sd) } =~= m);
        },
        PayloadModel::Answer(sd) => {
            let key = ",\"answer\":"@;
            assert(pay + "}"@ =~= key + (enc_sd(sd) + "}"@));
            lemma_prefix_split(s, p as int, key, enc_sd(sd) + "}"@);
            lemma_prefix_index(s, p as int, key, 0);
            lemma_prefix_index(s, p as int, key, 2);
            if is_prefix_at(s, p as int, "}"@) {
                lemma_prefix_index(s, p as int, "}"@, 0);
            }
            if is_prefix_at(s, p as int, ",\"offer\":"@) {
                lemma_prefix_index(s, p as int, ",\"offer\":"@, 2);
            }
            let p1 = p + key.len();
            lemma_prefix_split(s, p1 as int, enc_sd(sd), "}"@);
            lemma_parse_sd_complete(s, p1 as int, sd);
            let e = p1 + enc_sd(sd).len();
            lemma_prefix_index(s, e as int, "}"@, 0);
            assert(spec_decode(s) == Some(
                EnvelopeModel { peer_id: m.peer_id, payload: PayloadModel::Answer(sd) },
            ));
            assert(EnvelopeModel { peer_id: m.peer_id, payload: PayloadModel::Answer(sd) } =~= m);
        },
        PayloadModel::Candidate(c) => {
            let key = ",\"candidate\":"@;
            let val = enc_cand_value(c);
            assert(pay + "}"@ =~= key + (val + "}"@));
            lemma_prefix_split(s, p as int, key, val + "}"@);
            lemma_prefix_index(s, p as int, key, 0);
            lemma_prefix_index(s, p as int, key, 2);
            if is_prefix_at(s, p as int, "}"@) {
                lemma_prefix_index(s, p as int, "}"@, 0);
            }
            if is_prefix_at(s, p as int, ",\"offer\":"@) {
                lemma_prefix_index(s, p as int, ",\"offer\":"@, 2);
            }
            if is_prefix_at(s, p as int, ",\"answer\":"@) {
                lemma_prefix_index(s, p as int, ",\"answer\":"@, 2);
            }
            let p1 = p + key.len();
            lemma_prefix_split(s, p1 as int, val, "}"@);
            let e = p1 + val.len();
            lemma_prefix_index(s, e as int, "}"@, 0);
            assert(s[e as int] == '}');
            assert(!is_digit('}'));
            lemma_parse_cand_value_complete(s, p1 as int, c);
            assert(spec_decode(s) == Some(
                EnvelopeModel { peer_id: m.peer_id, payload: PayloadModel::Candidate(c) },
            ));
            assert(EnvelopeModel { peer_id: m.peer_id, payload: PayloadModel::Candidate(c) }
                =~= m);
        },
        PayloadModel::CombinedDescription(sd) => {
            let key = ",\"desc\":"@;
            assert(pay + "}"@ =~= key + (enc_sd(sd) + "}"@));
            lemma_prefix_split(s, p as int, key, enc_sd(sd) + "}"@);
            lemma_prefix_index(s, p as int, key, 0);
            lemma_prefix_index(s, p as int, key, 2);
            if is_prefix_at(s, p as int, "}"@) {
                lemma_prefix_index(s, p as int, "}"@, 0);
            }
            if is_prefix_at(s, p as int, ",\"offer\":"@) {
                lemma_prefix_index(s, p as int, ",\"offer\":"@, 2);
            }
            if is_prefix_at(s, p as int, ",\"answer\":"@) {
                lemma_prefix_index(s, p as int, ",\"answer\":"@, 2);
            }
            if is_prefix_at(s, p as int, ",\"candidate\":"@) {
                lemma_prefix_index(s, p as int, ",\"candidate\":"@, 2);
            }
            let p1 = p + key.len();
            lemma_prefix_split(s, p1 as int, enc_sd(sd), "}"@);
            lemma_parse_sd_complete(s, p1 as int, sd);
            let e = p1 + enc_sd(sd).len();
            lemma_prefix_index(s, e as int, "}"@, 0);
            assert(spec_decode(s) == Some(
                EnvelopeModel {
                    peer_id: m.peer_id,
                    payload: PayloadModel::CombinedDescription(sd),
                },
            ));
            assert(EnvelopeModel {
                peer_id: m.peer_id,
                payload: PayloadModel::CombinedDescription(sd),
            } =~= m);
        },
    }
}

/// The codec round-trip law: decoding the canonical frame of any valid
/// envelope yields that envelope back.
pub proof fn lemma_round_trip(m: EnvelopeModel)
    requires
        m.wf(),
    ensures
        spec_decode(spec_encode(m)) == Some(m),
{
    lemma_rt_payload(m);
}

} // verus!

verus! {

proof fn lemma_scan_sound(s: Seq<char>, i: int)
    requires
        scan_string(s, i) is Some,
    ensures
        ({
            let (t, e) = scan_string(s, i)->Some_0;
            &&& 0 <= i < e <= s.len()
            &&& wf_text(t)
            &&& s.subrange(i, e) == escape(t) + seq!['"']
        }),
    decreases s.len() - i,
{
    let (t, e) = scan_string(s, i)->Some_0;
    if s[i] == '"' {
        assert(t =~= Seq::<char>::empty());
        assert(escape(t) =~= Seq::<char>::empty());
        assert(s.subrange(i, i + 1) =~= escape(t) + seq!['"']);
    } else if s[i] == '\\' {
        let c = unesc_code(s[i + 1])->Some_0;
        lemma_scan_sound(s, i + 2);
        let (t1, e1) = scan_string(s, i + 2)->Some_0;
        assert(t == seq![c] + t1 && e == e1);
        assert(esc_char(c) =~= seq!['\\', s[i + 1]]);
        assert(t[0] == c);
        assert(t.skip(1) =~= t1);
        assert(escape(t) == esc_char(c) + escape(t1));
        assert(s.subrange(i, e) =~= seq![s[i], s[i + 1]] + s.subrange(i + 2, e));
        assert(escape(t) + seq!['"'] =~= seq![s[i], s[i + 1]] + (escape(t1) + seq!['"']));
        assert(s.subrange(i, e) =~= escape(t) + seq!['"']);
        assert(wf_char(c));
        assert forall|k: int| 0 <= k < t.len() implies wf_char(#[trigger] t[k]) by {
            if k > 0 {
                assert(t[k] == t1[k - 1]);
            }
        }
    } else {
        let c = s[i];
        lemma_scan_sound(s, i + 1);
        let (t1, e1) = scan_string(s, i + 1)->Some_0;
        assert(t == seq![c] + t1 && e == e1);
        assert(esc_char(c) =~= seq![c]);
        assert(t[0] == c);
        assert(t.skip(1) =~= t1);
        assert(escape(t) == esc_char(c) + escape(t1));
        assert(s.subrange(i, e) =~= seq![s[i]] + s.subrange(i + 1, e));
        assert(escape(t) + seq!['"'] =~= seq![c] + (escape(t1) + seq!['"']));
        assert(s.subrange(i, e) =~= escape(t) + seq!['"']);
        assert(wf_char(c));
        assert forall|k: int| 0 <= k < t.len() implies wf_char(#[trigger] t[k]) by {
            if k > 0 {
                assert(t[k] == t1[k - 1]);
            }
        }
    }
}

proof fn lemma_parse_string_sound(s: Seq<char>, i: int)
    requires
        parse_string(s, i) is Some,
    ensures
        ({
            let (t, e) = parse_string(s, i)->Some_0;
            &&& 0 <= i < e <= s.len()
            &&& wf_text(t)
            &&& s.subrange(i, e) == quote(t)
        }),
{
    lemma_scan_sound(s, i + 1);
    let (t, e) = parse_string(s, i)->Some_0;
    assert(s.subrange(i, e) =~= seq![s[i]] + s.subrange(i + 1, e));
    assert(quote(t) =~= seq!['"'] + (escape(t) + seq!['"']));
    assert(s.subrange(i, e) =~= quote(t));
}

proof fn lemma_run_end_props(s: Seq<char>, i: int)
    requires
        0 <= i <= s.len(),
    ensures
        i <= digit_run_end(s, i) <= s.len(),
        forall|k: int| i <= k < digit_run_end(s, i) ==> is_digit(#[trigger] s[k]),
        digit_run_end(s, i) == s.len() || !is_digit(s[digit_run_end(s, i)]),
    decreases s.len() - i,
{
    if i < s.len() && is_digit(s[i]) {
        lemma_run_end_props(s, i + 1);
        assert(digit_run_end(s, i) == digit_run_end(s, i + 1));
    } else {
        assert(digit_run_end(s, i) == i);
    }
}

proof fn lemma_digits_val_pos(ds: Seq<char>)
    requires
        ds.len() >= 1,
        forall|k: int| 0 <= k < ds.len() ==> is_digit(#[trigger] ds[k]),
        ds[0] != '0',
    ensures
        digits_val(ds) >= 1,
    decreases ds.len(),
{
    assert(is_digit(ds[0]));
    if ds.len() == 1 {
        assert(digits_val(ds.drop_last()) == 0);
        assert(digit_val(ds[0]) >= 1);
    } else {
        let front = ds.drop_last();
        assert(front[0] == ds[0]);
        assert forall|k: int| 0 <= k < front.len() implies is_digit(#[trigger] front[k]) by {
            assert(front[k] == ds[k]);
        }
        lemma_digits_val_pos(front);
        assert(digit_val(ds.last()) >= 0);
    }
}

proof fn lemma_dec_of_val(ds: Seq<char>)
    requires
        ds.len() >= 1,
        forall|k: int| 0 <= k < ds.len() ==> is_digit(#[trigger] ds[k]),
        ds[0] != '0' || ds.len() == 1,
    ensures
        dec_digits(digits_val(ds)) == ds,
    decreases ds.len(),
{
    lemma_digits_val_bound(ds);
    assert(is_digit(ds[0]));
    if ds.len() == 1 {
        assert(ds.drop_last() =~= Seq::<char>::empty());
        assert(ds.last() == ds[0]);
        assert(digits_val(Seq::<char>::empty()) == 0);
        assert(digits_val(ds) == digit_val(ds[0]));
        assert(digit_char(digit_val(ds[0])) == ds[0]);
        assert(dec_digits(digits_val(ds)) =~= ds);
    } else {
        let front = ds.drop_last();
        let d = ds.last();
        assert(is_digit(d));
        assert(front[0] == ds[0]);
        assert forall|k: int| 0 <= k < front.len() implies is_digit(#[trigger] front[k]) by {
            assert(front[k] == ds[k]);
        }
        let v1 = digits_val(front);
        let v = digits_val(ds);
        assert(v == v1 * 10 + digit_val(d));
        assert(front[0] == ds[0]);
        lemma_digits_val_pos(front);
        assert(v >= 10) by (nonlinear_arith)
            requires
                v == v1 * 10 + digit_val(d),
                v1 >= 1,
                digit_val(d) >= 0,
        ;
        assert(v / 10 == v1 && v % 10 == digit_val(d)) by (nonlinear_arith)
            requires
                v == v1 * 10 + digit_val(d),
                0 <= digit_val(d) < 10,
        ;
        lemma_dec_of_val(front);
        assert(digit_char(digit_val(d)) == d);
        assert(dec_digits(v) == dec_digits(v1) + seq![d]);
        assert(dec_digits(v1) + seq![d] =~= ds);
    }
}

proof fn lemma_parse_u16_sound(s: Seq<char>, i: int)
    requires
        0 <= i <= s.len(),
        parse_u16(s, i) is Some,
    ensures
        ({
            let (n, e) = parse_u16(s, i)->Some_0;
            &&& i < e <= s.len()
            &&& s.subrange(i, e) == dec_digits(n as int)
        }),
{
    let (n, e) = parse_u16(s, i)->Some_0;
    lemma_run_end_props(s, i);
    let ds = s.subrange(i, e);
    assert forall|k: int| 0 <= k < ds.len() implies is_digit(#[trigger] ds[k]) by {
        assert(ds[k] == s[i + k]);
    }
    assert(ds[0] == s[i]);
    lemma_digits_val_bound(ds);
    lemma_dec_of_val(ds);
}

} // verus!

verus! {

proof fn lemma_parse_sd_sound(s: Seq<char>, i: int)
    requires
        parse_sd(s, i) is Some,
    ensures
        ({
            let (sd, e) = parse_sd(s, i)->Some_0;
            &&& 0 <= i < e <= s.len()
            &&& sd.wf()
            &&& s.subrange(i, e) == enc_sd(sd)
        }),
{
    reveal_strlit("{\"type\":\"");
    reveal_strlit("offer");
    reveal_strlit("pranswer");
    reveal_strlit("answer");
    reveal_strlit("rollback");
    reveal_strlit("\",\"sdp\":");
    reveal_strlit("offer\",\"sdp\":");
    reveal_strlit("pranswer\",\"sdp\":");
    reveal_strlit("answer\",\"sdp\":");
    reveal_strlit("rollback\",\"sdp\":");
    reveal_strlit("}");
    let (sd, e) = parse_sd(s, i)->Some_0;
    let a = "{\"type\":\""@;
    let i1 = i + a.len();
    let tb = tag_text(sd.kind) + "\",\"sdp\":"@;
    if is_prefix_at(s, i1, "offer\",\"sdp\":"@) {
        assert(tb =~= "offer\",\"sdp\":"@);
    } else if is_prefix_at(s, i1, "pranswer\",\"sdp\":"@) {
        assert(tb =~= "pranswer\",\"sdp\":"@);
    } else if is_prefix_at(s, i1, "answer\",\"sdp\":"@) {
        assert(tb =~= "answer\",\"sdp\":"@);
    } else {
        assert(tb =~= "rollback\",\"sdp\":"@);
    }
    let i2 = i1 + tb.len();
    lemma_parse_string_sound(s, i2);
    let (t, i3) = parse_string(s, i2)->Some_0;
    lemma_prefix_index(s, i3, "}"@, 0);
    assert(s.subrange(i, e) =~= s.subrange(i, i1) + s.subrange(i1, i2) + s.subrange(i2, i3)
        + s.subrange(i3, e));
    assert(s.subrange(i3, e) =~= "}"@);
    assert(enc_sd(sd) =~= a + tb + quote(t) + "}"@);
    assert(s.subrange(i, e) =~= enc_sd(sd));
}

proof fn lemma_parse_opt_text_sound(s: Seq<char>, i: int)
    requires
        parse_opt_text(s, i) is Some,
    ensures
        ({
            let (o, e) = parse_opt_text(s, i)->Some_0;
            &&& 0 <= i < e <= s.len()
            &&& wf_opt_text(o)
            &&& s.subrange(i, e) == enc_opt_text(o)
        }),
{
    reveal_strlit("null");
    if is_prefix_at(s, i, "null"@) {
    } else {
        lemma_parse_string_sound(s, i);
    }
}

proof fn lemma_parse_opt_u16_sound(s: Seq<char>, i: int)
    requires
        0 <= i <= s.len(),
        parse_opt_u16(s, i) is Some,
    ensures
        ({
            let (o, e) = parse_opt_u16(s, i)->Some_0;
            &&& 0 <= i < e <= s.len()
            &&& s.subrange(i, e) == enc_opt_u16(o)
        }),
{
    reveal_strlit("null");
    if is_prefix_at(s, i, "null"@) {
    } else {
        lemma_parse_u16_sound(s, i);
    }
}

#[verifier::rlimit(100)]
proof fn lemma_parse_cand_value_sound(s: Seq<char>, i: int)
    requires
        0 <= i <= s.len(),
        parse_cand_value(s, i) is Some,
    ensures
        ({
            let (o, e) = parse_cand_value(s, i)->Some_0;
            &&& 0 <= i < e <= s.len()
            &&& (match o {
                Some(c) => c.wf(),
                None => true,
            })
            &&& s.subrange(i, e) == enc_cand_value(o)
        }),
{
    reveal_strlit("null");
    reveal_strlit("{\"candidate\":");
    reveal_strlit(",\"sdpMid\":");
    reveal_strlit(",\"sdpMLineIndex\":");
    reveal_strlit(",\"usernameFragment\":");
    reveal_strlit("}");
    let (o, e) = parse_cand_value(s, i)->Some_0;
    if is_prefix_at(s, i, "null"@) {
    } else {
        let l1 = "{\"candidate\":"@;
        let i1 = i + l1.len();
        lemma_parse_string_sound(s, i1);
        let (cand, i2) = parse_string(s, i1)->Some_0;
        let l2 = ",\"sdpMid\":"@;
        let i2b = i2 + l2.len();
        lemma_parse_opt_text_sound(s, i2b);
        let (mid, i3) = parse_opt_text(s, i2b)->Some_0;
        let l3 = ",\"sdpMLineIndex\":"@;
        let i3b = i3 + l3.len();
        lemma_parse_opt_u16_sound(s, i3b);
        let (idx, i4) = parse_opt_u16(s, i3b)->Some_0;
        let l4 = ",\"usernameFragment\":"@;
        let i4b = i4 + l4.len();
        lemma_parse_opt_text_sound(s, i4b);
        let (uf, i5) = parse_opt_text(s, i4b)->Some_0;
        lemma_prefix_index(s, i5, "}"@, 0);
        let c = o->Some_0;
        assert(s.subrange(i, e) =~= s.subrange(i, i1) + s.subrange(i1, i2) + s.subrange(i2, i2b)
            + s.subrange(i2b, i3) + s.subrange(i3, i3b) + s.subrange(i3b, i4)
            + s.subrange(i4, i4b) + s.subrange(i4b, i5) + s.subrange(i5, e));
    assert(s.subrange(i5, e) =~= "}"@);
        assert(enc_cand(c) =~= l1 + quote(cand) + l2 + enc_opt_text(mid) + l3 + enc_opt_u16(idx)
            + l4 + enc_opt_text(uf) + "}"@);
        assert(s.subrange(i, e) =~= enc_cand(c));
    }
}

/// Decoding is exact: every frame the parser accepts is the canonical
/// encoding of the (valid) envelope it yields, so an accepted frame carries
/// exactly one payload, and re-encoding what was decoded gives the frame back.
#[verifier::rlimit(100)]
pub proof fn lemma_decode_exact(s: Seq<char>)
    requires
        spec_decode(s) is Some,
    ensures
        spec_decode(s)->Some_0.wf(),
        spec_encode(spec_decode(s)->Some_0) == s,
{
    reveal_strlit("{\"username\":");
    reveal_strlit(",\"offer\":");
    reveal_strlit(",\"answer\":");
    reveal_strlit(",\"candidate\":");
    reveal_strlit(",\"desc\":");
    reveal_strlit("}");
    let m = spec_decode(s)->Some_0;
    let l = "{\"username\":"@;
    lemma_parse_string_sound(s, l.len() as int);
    let (u, p) = parse_string(s, l.len() as int)->Some_0;
    assert(s.subrange(0, l.len() as int) =~= l);
    if is_prefix_at(s, p, "}"@) && p + 1 == s.len() {
        lemma_prefix_index(s, p, "}"@, 0);
        assert(s =~= s.subrange(0, l.len() as int) + s.subrange(l.len() as int, p)
            + s.subrange(p, p + 1));
        assert(s.subrange(p, p + 1) =~= "}"@);
        assert(spec_encode(m) =~= s);
    } else if is_prefix_at(s, p, ",\"offer\":"@) {
        let key = ",\"offer\":"@;
        let p1 = p + key.len();
        lemma_parse_sd_sound(s, p1);
        let (sd, q) = parse_sd(s, p1)->Some_0;
        assert(s =~= s.subrange(0, l.len() as int) + s.subrange(l.len() as int, p)
            + s.subrange(p, p1) + s.subrange(p1, q) + s.subrange(q, q + 1));
        assert(s.subrange(q, q + 1) =~= "}"@);
        assert(spec_encode(m) =~= s);
    } else if is_prefix_at(s, p, ",\"answer\":"@) {
        let key = ",\"answer\":"@;
        let p1 = p + key.len();
        lemma_parse_sd_sound(s, p1);
        let (sd, q) = parse_sd(s, p1)->Some_0;
        assert(s =~= s.subrange(0, l.len() as int) + s.subrange(l.len() as int, p)
            + s.subrange(p, p1) + s.subrange(p1, q) + s.subrange(q, q + 1));
        assert(s.subrange(q, q + 1) =~= "}"@);
        assert(spec_encode(m) =~= s);
    } else if is_prefix_at(s, p, ",\"candidate\":"@) {
        let key = ",\"candidate\":"@;
        let p1 = p + key.len();
        lemma_parse_cand_value_sound(s, p1);
        let (c, q) = parse_cand_value(s, p1)->Some_0;
        assert(s =~= s.subrange(0, l.len() as int) + s.subrange(l.len() as int, p)
            + s.subrange(p, p1) + s.subrange(p1, q) + s.subrange(q, q + 1));
        assert(s.subrange(q, q + 1) =~= "}"@);
        assert(spec_encode(m) =~= s);
    } else {
        let key = ",\"desc\":"@;
        let p1 = p + key.len();
        lemma_parse_sd_sound(s, p1);
        let (sd, q) = parse_sd(s, p1)->Some_0;
        assert(s =~= s.subrange(0, l.len() as int) + s.subrange(l.len() as int, p)
            + s.subrange(p, p1) + s.subrange(p1, q) + s.subrange(q, q + 1));
        assert(s.subrange(q, q + 1) =~= "}"@);
        assert(spec_encode(m) =~= s);
    }
}

} // verus!

verus! {

/// Decodes a text frame into the envelope it denotes, failing with
/// [`DecodeError::MalformedEnvelope`] where the frame is not a canonical
/// envelope. Success is owed exactly on the canonical frames: a frame decodes
/// to `e` if and only if it is `spec_encode(e@)` for a valid envelope.
pub fn decode(s: &str) -> (r: Result<Envelope, DecodeError>)
    ensures
        (match r {
            Ok(e) => spec_decode(s@) == Some(e@),
            Err(_) => spec_decode(s@) is None,
        }),
        (match r {
            Ok(e) => e.wf() && s@ == spec_encode(e@),
            Err(_) => forall|m: EnvelopeModel| m.wf() ==> spec_encode(m) != s@,
        }),
{
    let r = decode_frame(s);
    proof {
        match &r {
            Ok(_) => {
                lemma_decode_exact(s@);
            },
            Err(_) => {
                assert forall|m: EnvelopeModel| m.wf() implies spec_encode(m) != s@ by {
                    if spec_encode(m) == s@ {
                        lemma_round_trip(m);
                    }
                }
            },
        }
    }
    r
}

} // verus!

verus! {

/// The encoding is injective: distinct valid envelopes have distinct frames,
/// so a frame determines its envelope — in particular the three candidate
/// forms (no member, `null`, an object) are told apart.
pub proof fn lemma_encode_injective(m1: EnvelopeModel, m2: EnvelopeModel)
    requires
        m1.wf(),
        m2.wf(),
        spec_encode(m1) == spec_encode(m2),
    ensures
        m1 == m2,
{
    lemma_round_trip(m1);
    lemma_round_trip(m2);
}

} // verus!
