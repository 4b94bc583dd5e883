use vstd::prelude::*;

use crate::session::{Session, SessionIndex, SessionV};
use crate::text::{string_from_chars, to_char_vec};
use vstd::seq_lib::lemma_seq_skip_of_skip;

verus! {

// ---------------------------------------------------------------------------
// The document format. The ledger is one JSON document:
//     {"sessions":[S,S,...]}
// where each session S is an object with a fixed key order:
//     {"id":"...","timestamp":"...","audio_path":"...","duration_ms":N,
//      "preview":"...","transcript_path":"...","clipboard_copied":B,
//      "transcription_time_ms":null|N,"model_path":null|"..."}
// Strings escape the quote, the backslash and the three common control
// characters; numbers are plain decimal.
// ---------------------------------------------------------------------------
/// The encoding of one character inside a JSON string.
pub open spec fn esc_char(c: char) -> Seq<char> {
    if c == '"' {
        seq!['\\', '"']
    } else if c == '\\' {
        seq!['\\', '\\']
    } else if c == '\n' {
        seq!['\\', 'n']
    } else if c == '\r' {
        seq!['\\', 'r']
    } else if c == '\t' {
        seq!['\\', 't']
    } else {
        seq![c]
    }
}

/// The escaped body of a JSON string.
pub open spec fn esc(s: Seq<char>) -> Seq<char>
    decreases s.len(),
{
    if s.len() == 0 {
        Seq::empty()
    } else {
        esc(s.drop_last()) + esc_char(s.last())
    }
}

/// A JSON string literal.
pub open spec fn ser_string(s: Seq<char>) -> Seq<char> {
    seq!['"'] + esc(s) + seq!['"']
}

/// The character of one decimal digit.
pub open spec fn digit_char(d: int) -> char {
    if d == 0 {
        '0'
    } else if d == 1 {
        '1'
    } else if d == 2 {
        '2'
    } else if d == 3 {
        '3'
    } else if d == 4 {
        '4'
    } else if d == 5 {
        '5'
    } else if d == 6 {
        '6'
    } else if d == 7 {
        '7'
    } else if d == 8 {
        '8'
    } else {
        '9'
    }
}

/// The decimal rendering of a nonnegative integer.
pub open spec fn digits_of(n: int) -> Seq<char>
    decreases n,
{
    if n < 10 {
        seq![digit_char(n)]
    } else {
        digits_of(n / 10).push(digit_char(n % 10))
    }
}

/// A JSON boolean.
pub open spec fn ser_bool(b: bool) -> Seq<char> {
    if b {
        "true"@
    } else {
        "false"@
    }
}

/// A JSON number-or-null.
pub open spec fn ser_opt_u64(o: Option<u64>) -> Seq<char> {
    match o {
        Some(n) => digits_of(n as int),
        None => "null"@,
    }
}

/// A JSON string-or-null.
pub open spec fn ser_opt_string(o: Option<Seq<char>>) -> Seq<char> {
    match o {
        Some(s) => ser_string(s),
        None => "null"@,
    }
}

/// One session as a JSON object.
#[verifier::opaque]
pub open spec fn ser_session(s: SessionV) -> Seq<char> {
    "{\"id\":"@ + ser_string(s.id) + ",\"timestamp\":"@ + ser_string(s.timestamp)
        + ",\"audio_path\":"@ + ser_string(s.audio_path) + ",\"duration_ms\":"@ + digits_of(
        s.duration_ms as int,
    ) + ",\"preview\":"@ + ser_string(s.preview) + ",\"transcript_path\":"@ + ser_string(
        s.transcript_path,
    ) + ",\"clipboard_copied\":"@ + ser_bool(s.clipboard_copied) + ",\"transcription_time_ms\":"@
        + ser_opt_u64(s.transcription_time_ms) + ",\"model_path\":"@ + ser_opt_string(s.model_path)
        + "}"@
}

/// The sessions, comma separated.
pub open spec fn ser_sessions(ix: Seq<SessionV>) -> Seq<char>
    decreases ix.len(),
{
    if ix.len() == 0 {
        Seq::empty()
    } else if ix.len() == 1 {
        ser_session(ix[0])
    } else {
        ser_sessions(ix.drop_last()) + seq![','] + ser_session(ix.last())
    }
}

/// The whole ledger document.
pub open spec fn ser_index(ix: Seq<SessionV>) -> Seq<char> {
    "{\"sessions\":["@ + ser_sessions(ix) + "]}"@
}

// ---------------------------------------------------------------------------
// The serializer.
// ---------------------------------------------------------------------------
/// Append a literal to the output.
fn emit_lit(out: &mut Vec<char>, lit: &str)
    ensures
        final(out)@ == old(out)@ + lit@,
{
    let n = lit.unicode_len();
    let mut i: usize = 0;
    while i < n
        invariant
            i <= n,
            n == lit@.len(),
            out@ == old(out)@ + lit@.subrange(0, i as int),
        decreases n - i,
    {
        out.push(lit.get_char(i));
        proof {
            assert(lit@.subrange(0, (i + 1) as int) =~= lit@.subrange(0, i as int).push(
                lit@[i as int],
            ));
        }
        i = i + 1;
    }
    proof {
        assert(lit@.subrange(0, lit@.len() as int) =~= lit@);
    }
}

/// Append one escaped character to the output.
fn emit_esc_char(out: &mut Vec<char>, c: char)
    ensures
        final(out)@ == old(out)@ + esc_char(c),
{
    if c == '"' {
        out.push('\\');
        out.push('"');
    } else if c == '\\' {
        out.push('\\');
        out.push('\\');
    } else if c == '\n' {
        out.push('\\');
        out.push('n');
    } else if c == '\r' {
        out.push('\\');
        out.push('r');
    } else if c == '\t' {
        out.push('\\');
        out.push('t');
    } else {
        out.push(c);
    }
    proof {
        assert(final(out)@ =~= old(out)@ + esc_char(c));
    }
}

/// Append a JSON string literal to the output.
fn emit_string(out: &mut Vec<char>, s: &str)
    ensures
        final(out)@ == old(out)@ + ser_string(s@),
{
    let n = s.unicode_len();
    out.push('"');
    let mut i: usize = 0;
    while i < n
        invariant
            i <= n,
            n == s@.len(),
            out@ == old(out)@ + seq!['"'] + esc(s@.subrange(0, i as int)),
        decreases n - i,
    {
        emit_esc_char(out, s.get_char(i));
        proof {
            let pre = s@.subrange(0, (i + 1) as int);
            assert(pre.drop_last() =~= s@.subrange(0, i as int));
            assert(pre.last() == s@[i as int]);
        }
        i = i + 1;
    }
    out.push('"');
    proof {
        assert(s@.subrange(0, s@.len() as int) =~= s@);
        assert(final(out)@ =~= old(out)@ + ser_string(s@));
    }
}

/// Append the decimal rendering of a number to the output.
fn emit_u64(out: &mut Vec<char>, n: u64)
    ensures
        final(out)@ == old(out)@ + digits_of(n as int),
{
    // collect the digits backwards, then reverse
    let mut rev: Vec<char> = Vec::new();
    let mut m: u64 = n;
    while m >= 10
        invariant
            digits_of(n as int) == digits_of(m as int) + rev@.reverse(),
        decreases m,
    {
        let d = m % 10;
        let c = digit_char_exec(d);
        rev.push(c);
        proof {
            assert(rev@.reverse() =~= seq![digit_char(d as int)] + rev@.drop_last().reverse());
            assert(digits_of(m as int) =~= digits_of(m as int / 10) + seq![
                digit_char(m as int % 10),
            ]);
        }
        m = m / 10;
    }
    let c = digit_char_exec(m);
    proof {
        assert(digits_of(m as int) =~= seq![digit_char(m as int)]);
    }
    out.push(c);
    let mut j: usize = rev.len();
    while j > 0
        invariant
            j <= rev@.len(),
            out@ == old(out)@ + seq![digit_char(m as int)] + rev@.subrange(
                j as int,
                rev@.len() as int,
            ).reverse(),
        decreases j,
    {
        j = j - 1;
        out.push(rev[j]);
        proof {
            assert(rev@.subrange(j as int, rev@.len() as int).reverse() =~= rev@.subrange(
                (j + 1) as int,
                rev@.len() as int,
            ).reverse().push(rev@[j as int]));
        }
    }
    proof {
        assert(rev@.subrange(0, rev@.len() as int) =~= rev@);
        assert(final(out)@ =~= old(out)@ + digits_of(n as int));
    }
}

/// The character of one decimal digit.
fn digit_char_exec(d: u64) -> (r: char)
    requires
        d < 10,
    ensures
        r == digit_char(d as int),
{
    if d == 0 {
        '0'
    } else if d == 1 {
        '1'
    } else if d == 2 {
        '2'
    } else if d == 3 {
        '3'
    } else if d == 4 {
        '4'
    } else if d == 5 {
        '5'
    } else if d == 6 {
        '6'
    } else if d == 7 {
        '7'
    } else if d == 8 {
        '8'
    } else {
        '9'
    }
}

/// Append one session object to the output.
#[verifier::rlimit(100)]
fn emit_session(out: &mut Vec<char>, s: &Session)
    ensures
        final(out)@ == old(out)@ + ser_session(s@),
{
    emit_lit(out, "{\"id\":");
    emit_string(out, s.id.as_str());
    emit_lit(out, ",\"timestamp\":");
    emit_string(out, s.timestamp.as_str());
    emit_lit(out, ",\"audio_path\":");
    emit_string(out, s.audio_path.as_str());
    emit_lit(out, ",\"duration_ms\":");
    emit_u64(out, s.duration_ms);
    emit_lit(out, ",\"preview\":");
    emit_string(out, s.preview.as_str());
    emit_lit(out, ",\"transcript_path\":");
    emit_string(out, s.transcript_path.as_str());
    emit_lit(out, ",\"clipboard_copied\":");
    if s.clipboard_copied {
        emit_lit(out, "true");
    } else {
        emit_lit(out, "false");
    }
    emit_lit(out, ",\"transcription_time_ms\":");
    match &s.transcription_time_ms {
        Some(t) => emit_u64(out, *t),
        None => emit_lit(out, "null"),
    }
    emit_lit(out, ",\"model_path\":");
    match &s.model_path {
        Some(m) => emit_string(out, m.as_str()),
        None => emit_lit(out, "null"),
    }
    emit_lit(out, "}");
    proof {
        reveal(ser_session);
        assert(final(out)@ =~= old(out)@ + ser_session(s@));
    }
}

impl SessionIndex {
    /// Serialize the whole ledger as one JSON document.
    pub fn to_json(&self) -> (r: String)
        ensures
            r@ == ser_index(self@),
    {
        let mut out: Vec<char> = Vec::new();
        emit_lit(&mut out, "{\"sessions\":[");
        let ghost header = out@;
        let mut i: usize = 0;
        proof {
            assert(self@.subrange(0, 0) =~= Seq::<SessionV>::empty());
        }
        while i < self.sessions.len()
            invariant
                i <= self.sessions@.len(),
                self@.len() == self.sessions@.len(),
                out@ == header + ser_sessions(self@.subrange(0, i as int)),
            decreases self.sessions@.len() - i,
        {
            proof {
                assert(self@.subrange(0, (i + 1) as int).drop_last() =~= self@.subrange(
                    0,
                    i as int,
                ));
                assert(self@.subrange(0, (i + 1) as int).last() == self@[i as int]);
                assert(self@[i as int] == self.sessions@[i as int]@);
            }
            if i > 0 {
                out.push(',');
            }
            emit_session(&mut out, &self.sessions[i]);
            proof {
                assert(out@ =~= header + ser_sessions(self@.subrange(0, (i + 1) as int)));
            }
            i = i + 1;
        }
        emit_lit(&mut out, "]}");
        proof {
            assert(self@.subrange(0, self@.len() as int) =~= self@);
            assert(out@ =~= ser_index(self@));
        }
        string_from_chars(&out)
    }
}


// ---------------------------------------------------------------------------
// The parser, at the specification level: a strict recursive-descent reading
// of exactly the grammar the serializer emits.
// ---------------------------------------------------------------------------
/// A decimal digit.
pub open spec fn is_digit(c: char) -> bool {
    c == '0' || c == '1' || c == '2' || c == '3' || c == '4' || c == '5' || c == '6' || c == '7'
        || c == '8' || c == '9'
}

/// The value of one decimal digit character.
pub open spec fn digit_val(c: char) -> int {
    if c == '0' {
        0
    } else if c == '1' {
        1
    } else if c == '2' {
        2
    } else if c == '3' {
        3
    } else if c == '4' {
        4
    } else if c == '5' {
        5
    } else if c == '6' {
        6
    } else if c == '7' {
        7
    } else if c == '8' {
        8
    } else {
        9
    }
}

/// What a character after a backslash decodes to.
pub open spec fn unesc_char(c: char) -> Option<char> {
    if c == '"' {
        Some('"')
    } else if c == '\\' {
        Some('\\')
    } else if c == 'n' {
        Some('\n')
    } else if c == 'r' {
        Some('\r')
    } else if c == 't' {
        Some('\t')
    } else {
        None
    }
}

/// Consume a fixed literal: the number of characters consumed, if it is
/// there.
pub open spec fn sp_lit(t: Seq<char>, lit: Seq<char>) -> Option<int> {
    if lit.len() <= t.len() && t.take(lit.len() as int) == lit {
        Some(lit.len() as int)
    } else {
        None
    }
}

/// Consume a string body after the opening quote: the decoded content and the
/// number of characters consumed, closing quote included.
pub open spec fn sp_str_body(t: Seq<char>) -> Option<(Seq<char>, int)>
    decreases t.len(),
{
    if t.len() == 0 {
        None
    } else if t[0] == '"' {
        Some((Seq::empty(), 1))
    } else if t[0] == '\\' {
        if t.len() < 2 {
            None
        } else {
            match unesc_char(t[1]) {
                Some(c) => match sp_str_body(t.skip(2)) {
                    Some(p) => Some((seq![c] + p.0, p.1 + 2)),
                    None => None,
                },
                None => None,
            }
        }
    } else {
        match sp_str_body(t.skip(1)) {
            Some(p) => Some((seq![t[0]] + p.0, p.1 + 1)),
            None => None,
        }
    }
}

/// Consume a JSON string literal.
pub open spec fn sp_string(t: Seq<char>) -> Option<(Seq<char>, int)> {
    if t.len() > 0 && t[0] == '"' {
        match sp_str_body(t.skip(1)) {
            Some(p) => Some((p.0, p.1 + 1)),
            None => None,
        }
    } else {
        None
    }
}

/// Consume a greedy digit run, accumulating onto `acc`: the value and the
/// number of digits.
pub open spec fn sp_digits(t: Seq<char>, acc: int) -> (int, int)
    decreases t.len(),
{
    if t.len() == 0 || !is_digit(t[0]) {
        (acc, 0)
    } else {
        let r = sp_digits(t.skip(1), acc * 10 + digit_val(t[0]));
        (r.0, r.1 + 1)
    }
}

/// Consume a decimal number that fits a `u64`.
pub open spec fn sp_u64(t: Seq<char>) -> Option<(int, int)> {
    if t.len() > 0 && is_digit(t[0]) {
        let r = sp_digits(t, 0);
        if r.0 > u64::MAX as int {
            None
        } else {
            Some(r)
        }
    } else {
        None
    }
}

/// Consume a JSON boolean.
pub open spec fn sp_bool(t: Seq<char>) -> Option<(bool, int)> {
    if sp_lit(t, "true"@) is Some {
        Some((true, "true"@.len() as int))
    } else if sp_lit(t, "false"@) is Some {
        Some((false, "false"@.len() as int))
    } else {
        None
    }
}

/// Consume a number-or-null.
pub open spec fn sp_opt_u64(t: Seq<char>) -> Option<(Option<u64>, int)> {
    if sp_lit(t, "null"@) is Some {
        Some((None, "null"@.len() as int))
    } else {
        match sp_u64(t) {
            Some(p) => Some((Some(p.0 as u64), p.1)),
            None => None,
        }
    }
}

/// Consume a string-or-null.
pub open spec fn sp_opt_string(t: Seq<char>) -> Option<(Option<Seq<char>>, int)> {
    if sp_lit(t, "null"@) is Some {
        Some((None, "null"@.len() as int))
    } else {
        match sp_string(t) {
            Some(p) => Some((Some(p.0), p.1)),
            None => None,
        }
    }
}

/// Consume one session object.
pub open spec fn sp_session(t: Seq<char>) -> Option<(SessionV, int)> {
    match sp_lit(t, "{\"id\":"@) {
        None => None,
        Some(n0) => match sp_string(t.skip(n0)) {
            None => None,
            Some((id, n1)) => match sp_lit(t.skip(n0 + n1), ",\"timestamp\":"@) {
                None => None,
                Some(n2) => match sp_string(t.skip(n0 + n1 + n2)) {
                    None => None,
                    Some((timestamp, n3)) => match sp_lit(
                        t.skip(n0 + n1 + n2 + n3),
                        ",\"audio_path\":"@,
                    ) {
                        None => None,
                        Some(n4) => match sp_string(t.skip(n0 + n1 + n2 + n3 + n4)) {
                            None => None,
                            Some((audio_path, n5)) => match sp_lit(
                                t.skip(n0 + n1 + n2 + n3 + n4 + n5),
                                ",\"duration_ms\":"@,
                            ) {
                                None => None,
                                Some(n6) => match sp_u64(t.skip(n0 + n1 + n2 + n3 + n4 + n5 + n6)) {
                                    None => None,
                                    Some((duration, n7)) => sp_session_tail(
                                        t,
                                        id,
                                        timestamp,
                                        audio_path,
                                        duration,
                                        n0 + n1 + n2 + n3 + n4 + n5 + n6 + n7,
                                    ),
                                },
                            },
                        },
                    },
                },
            },
        },
    }
}

/// Consume the second half of a session object, from the preview key on.
pub open spec fn sp_session_tail(
    t: Seq<char>,
    id: Seq<char>,
    timestamp: Seq<char>,
    audio_path: Seq<char>,
    duration: int,
    p: int,
) -> Option<(SessionV, int)> {
    match sp_lit(t.skip(p), ",\"preview\":"@) {
        None => None,
        Some(n0) => match sp_string(t.skip(p + n0)) {
            None => None,
            Some((preview, n1)) => match sp_lit(t.skip(p + n0 + n1), ",\"transcript_path\":"@) {
                None => None,
                Some(n2) => match sp_string(t.skip(p + n0 + n1 + n2)) {
                    None => None,
                    Some((transcript_path, n3)) => match sp_lit(
                        t.skip(p + n0 + n1 + n2 + n3),
                        ",\"clipboard_copied\":"@,
                    ) {
                        None => None,
                        Some(n4) => match sp_bool(t.skip(p + n0 + n1 + n2 + n3 + n4)) {
                            None => None,
                            Some((clipboard_copied, n5)) => match sp_lit(
                                t.skip(p + n0 + n1 + n2 + n3 + n4 + n5),
                                ",\"transcription_time_ms\":"@,
                            ) {
                                None => None,
                                Some(n6) => match sp_opt_u64(
                                    t.skip(p + n0 + n1 + n2 + n3 + n4 + n5 + n6),
                                ) {
                                    None => None,
                                    Some((time, n7)) => match sp_lit(
                                        t.skip(p + n0 + n1 + n2 + n3 + n4 + n5 + n6 + n7),
                                        ",\"model_path\":"@,
                                    ) {
                                        None => None,
                                        Some(n8) => match sp_opt_string(
                                            t.skip(p + n0 + n1 + n2 + n3 + n4 + n5 + n6 + n7 + n8),
                                        ) {
                                            None => None,
                                            Some((model, n9)) => match sp_lit(
                                                t.skip(
                                                    p + n0 + n1 + n2 + n3 + n4 + n5 + n6 + n7 + n8
                                                        + n9,
                                                ),
                                                "}"@,
                                            ) {
                                                None => None,
                                                Some(n10) => Some(
                                                    (
                                                        SessionV {
                                                            id: id,
                                                            timestamp: timestamp,
                                                            audio_path: audio_path,
                                                            duration_ms: duration as u64,
                                                            preview: preview,
                                                            transcript_path: transcript_path,
                                                            clipboard_copied: clipboard_copied,
                                                            transcription_time_ms: time,
                                                            model_path: model,
                                                        },
                                                        p + n0 + n1 + n2 + n3 + n4 + n5 + n6 + n7
                                                            + n8 + n9 + n10,
                                                    ),
                                                ),
                                            },
                                        },
                                    },
                                },
                            },
                        },
                    },
                },
            },
        },
    }
}

/// Consume zero or more further sessions, each preceded by a comma.
pub open spec fn sp_sessions_rest(t: Seq<char>) -> Option<(Seq<SessionV>, int)>
    decreases t.len(),
{
    if t.len() > 0 && t[0] == ',' {
        match sp_session(t.skip(1)) {
            None => None,
            Some((s, n)) => {
                if n < 1 || 1 + n > t.len() {
                    None
                } else {
                    match sp_sessions_rest(t.skip(1 + n)) {
                        None => None,
                        Some((ss, m)) => Some((seq![s] + ss, 1 + n + m)),
                    }
                }
            },
        }
    } else {
        Some((Seq::empty(), 0))
    }
}

/// Consume one or more comma-separated sessions.
pub open spec fn sp_sessions(t: Seq<char>) -> Option<(Seq<SessionV>, int)> {
    match sp_session(t) {
        None => None,
        Some((s, n)) => {
            if n < 1 || n > t.len() {
                None
            } else {
                match sp_sessions_rest(t.skip(n)) {
                    None => None,
                    Some((ss, m)) => Some((seq![s] + ss, n + m)),
                }
            }
        },
    }
}

/// Parse a whole ledger document. The entire input must be consumed.
pub open spec fn sp_index(t: Seq<char>) -> Option<Seq<SessionV>> {
    match sp_lit(t, "{\"sessions\":["@) {
        None => None,
        Some(n0) => {
            let rest = t.skip(n0);
            if rest == "]}"@ {
                Some(Seq::empty())
            } else {
                match sp_sessions(rest) {
                    None => None,
                    Some((ss, n1)) => {
                        if 0 <= n1 <= rest.len() && rest.skip(n1) == "]}"@ {
                            Some(ss)
                        } else {
                            None
                        }
                    },
                }
            }
        },
    }
}


// ---------------------------------------------------------------------------
// The round trip: parsing what the serializer emitted gives back exactly the
// sessions that went in.
// ---------------------------------------------------------------------------
/// Escaping distributes over concatenation.
proof fn lemma_esc_app(a: Seq<char>, b: Seq<char>)
    ensures
        esc(a + b) == esc(a) + esc(b),
    decreases b.len(),
{
    if b.len() == 0 {
        assert(a + b =~= a);
        assert(esc(a) + esc(b) =~= esc(a));
    } else {
        lemma_esc_app(a, b.drop_last());
        assert((a + b).drop_last() =~= a + b.drop_last());
        assert((a + b).last() == b.last());
        assert(esc(a) + esc(b) =~= esc(a) + (esc(b.drop_last()) + esc_char(b.last())));
    }
}

/// A fixed literal parses off the front of its own emission.
proof fn lemma_sp_lit_rt(lit: Seq<char>, rest: Seq<char>)
    ensures
        sp_lit(lit + rest, lit) == Some(lit.len() as int),
{
    assert((lit + rest).take(lit.len() as int) =~= lit);
}

/// A string body parses back to the characters that were escaped.
proof fn lemma_sp_str_body_rt(s: Seq<char>, rest: Seq<char>)
    ensures
        sp_str_body(esc(s) + seq!['"'] + rest) == Some((s, esc(s).len() as int + 1)),
    decreases s.len(),
{
    let t = esc(s) + seq!['"'] + rest;
    if s.len() == 0 {
        assert(esc(s) =~= Seq::<char>::empty());
        assert(t =~= seq!['"'] + rest);
        assert(t[0] == '"');
    } else {
        let s0 = s[0];
        let sr = s.drop_first();
        assert(seq![s0] + sr =~= s);
        lemma_esc_app(seq![s0], sr);
        assert(seq![s0].drop_last() =~= Seq::<char>::empty());
        assert(seq![s0].last() == s0);
        assert(esc(Seq::<char>::empty()) =~= Seq::<char>::empty());
        assert(esc(seq![s0]) == esc(Seq::<char>::empty()) + esc_char(s0));
        assert(Seq::<char>::empty() + esc_char(s0) =~= esc_char(s0));
        assert(esc(seq![s0]) =~= esc_char(s0));
        let e0 = esc_char(s0);
        let tail = esc(sr) + seq!['"'] + rest;
        assert(t =~= e0 + tail);
        lemma_sp_str_body_rt(sr, rest);
        if s0 == '"' || s0 == '\\' || s0 == '\n' || s0 == '\r' || s0 == '\t' {
            assert(e0.len() == 2 && e0[0] == '\\');
            assert(t[0] == '\\');
            assert(t[1] == e0[1]);
            assert(unesc_char(e0[1]) == Some(s0));
            assert(t.skip(2) =~= tail);
            assert(seq![s0] + sr =~= s);
            assert(sp_str_body(t) == Some((s, esc(s).len() as int + 1)));
        } else {
            assert(e0 =~= seq![s0]);
            assert(t[0] == s0);
            assert(t[0] != '"' && t[0] != '\\');
            assert(t.skip(1) =~= tail);
            assert(seq![s0] + sr =~= s);
            assert(sp_str_body(t) == Some((s, esc(s).len() as int + 1)));
        }
    }
}

/// A string literal parses back to the characters that were serialized.
proof fn lemma_sp_string_rt(s: Seq<char>, rest: Seq<char>)
    ensures
        sp_string(ser_string(s) + rest) == Some((s, ser_string(s).len() as int)),
        ser_string(s).len() == esc(s).len() + 2,
{
    let t = ser_string(s) + rest;
    assert(t[0] == '"');
    assert(t.skip(1) =~= esc(s) + seq!['"'] + rest);
    lemma_sp_str_body_rt(s, rest);
}

/// The value of a digit run read from the left.
spec fn fold_digits(d: Seq<char>, acc: int) -> int
    decreases d.len(),
{
    if d.len() == 0 {
        acc
    } else {
        fold_digits(d.drop_first(), acc * 10 + digit_val(d[0]))
    }
}

proof fn lemma_fold_push(d: Seq<char>, c: char, acc: int)
    ensures
        fold_digits(d.push(c), acc) == fold_digits(d, acc) * 10 + digit_val(c),
    decreases d.len(),
{
    if d.len() == 0 {
        assert(d.push(c).drop_first() =~= Seq::<char>::empty());
        assert(d.push(c)[0] == c);
        assert(fold_digits(Seq::<char>::empty(), acc * 10 + digit_val(c)) == acc * 10 + digit_val(
            c,
        ));
        assert(fold_digits(d.push(c), acc) == acc * 10 + digit_val(c));
        assert(fold_digits(d, acc) == acc);
    } else {
        assert(d.push(c).drop_first() =~= d.drop_first().push(c));
        assert(d.push(c)[0] == d[0]);
        lemma_fold_push(d.drop_first(), c, acc * 10 + digit_val(d[0]));
        assert(fold_digits(d.push(c), acc) == fold_digits(
            d.drop_first().push(c),
            acc * 10 + digit_val(d[0]),
        ));
        assert(fold_digits(d, acc) == fold_digits(d.drop_first(), acc * 10 + digit_val(d[0])));
    }
}

/// Powers of ten.
spec fn pow10(k: nat) -> int
    decreases k,
{
    if k == 0 {
        1
    } else {
        10 * pow10((k - 1) as nat)
    }
}

/// Every character of a decimal rendering is a digit, and there is at least
/// one.
proof fn lemma_digits_all(n: int)
    requires
        n >= 0,
    ensures
        digits_of(n).len() >= 1,
        forall|i: int| 0 <= i < digits_of(n).len() ==> is_digit(#[trigger] digits_of(n)[i]),
    decreases n,
{
    if n < 10 {
        assert(is_digit(digit_char(n)));
    } else {
        lemma_digits_all(n / 10);
        assert(is_digit(digit_char(n % 10)));
        assert(forall|i: int|
            0 <= i < digits_of(n).len() - 1 ==> #[trigger] digits_of(n)[i] == digits_of(n / 10)[i]);
        assert(digits_of(n).last() == digit_char(n % 10));
    }
}

/// Reading the decimal rendering from the left recovers the number.
proof fn lemma_fold_digits_of(n: int, acc: int)
    requires
        n >= 0,
    ensures
        fold_digits(digits_of(n), acc) == acc * pow10(digits_of(n).len() as nat) + n,
    decreases n,
{
    if n < 10 {
        assert(digits_of(n) =~= seq![digit_char(n)]);
        assert(digits_of(n)[0] == digit_char(n));
        assert(digits_of(n).drop_first() =~= Seq::<char>::empty());
        assert(digit_val(digit_char(n)) == n);
        assert(fold_digits(Seq::<char>::empty(), acc * 10 + n) == acc * 10 + n);
        assert(fold_digits(digits_of(n), acc) == acc * 10 + n);
        assert(pow10(0) == 1);
        assert(pow10(1) == 10 * pow10(0));
        assert(pow10(digits_of(n).len() as nat) == 10);
    } else {
        lemma_fold_digits_of(n / 10, acc);
        lemma_fold_push(digits_of(n / 10), digit_char(n % 10), acc);
        lemma_digits_all(n / 10);
        assert(digit_val(digit_char(n % 10)) == n % 10);
        let ln = digits_of(n / 10).len() as nat;
        assert(digits_of(n).len() == ln + 1);
        assert(pow10((ln + 1) as nat) == 10 * pow10(((ln + 1) as nat - 1) as nat));
        assert(((ln + 1) as nat - 1) as nat == ln);
        assert(pow10((ln + 1) as nat) == 10 * pow10(ln));
        assert((acc * pow10(ln) + n / 10) * 10 + n % 10 == acc * (10 * pow10(ln)) + ((n / 10) * 10
            + n % 10)) by (nonlinear_arith);
        assert((n / 10) * 10 + n % 10 == n);
    }
}

/// A digit run followed by a non-digit parses greedily to exactly that run.
proof fn lemma_sp_digits_prefix(d: Seq<char>, rest: Seq<char>, acc: int)
    requires
        forall|i: int| 0 <= i < d.len() ==> is_digit(#[trigger] d[i]),
        rest.len() == 0 || !is_digit(rest[0]),
    ensures
        sp_digits(d + rest, acc) == (fold_digits(d, acc), d.len() as int),
    decreases d.len(),
{
    if d.len() == 0 {
        assert(d + rest =~= rest);
    } else {
        assert((d + rest)[0] == d[0]);
        assert((d + rest).skip(1) =~= d.drop_first() + rest);
        lemma_sp_digits_prefix(d.drop_first(), rest, acc * 10 + digit_val(d[0]));
    }
}

/// A serialized number followed by a non-digit parses back to itself.
proof fn lemma_sp_u64_rt(n: u64, rest: Seq<char>)
    requires
        rest.len() == 0 || !is_digit(rest[0]),
    ensures
        sp_u64(digits_of(n as int) + rest) == Some((n as int, digits_of(n as int).len() as int)),
{
    let d = digits_of(n as int);
    lemma_digits_all(n as int);
    assert((d + rest)[0] == d[0]);
    lemma_sp_digits_prefix(d, rest, 0);
    lemma_fold_digits_of(n as int, 0);
    assert(0 * pow10(d.len() as nat) == 0) by (nonlinear_arith);
}

/// A serialized boolean parses back to itself.
proof fn lemma_sp_bool_rt(b: bool, rest: Seq<char>)
    ensures
        sp_bool(ser_bool(b) + rest) == Some((b, ser_bool(b).len() as int)),
{
    reveal_strlit("true");
    reveal_strlit("false");
    let t = ser_bool(b) + rest;
    if b {
        lemma_sp_lit_rt("true"@, rest);
    } else {
        lemma_sp_lit_rt("false"@, rest);
        if sp_lit(t, "true"@) is Some {
            assert(t.take(4) == "true"@);
            assert(t.take(4)[0] == 't');
            assert(t[0] == 'f');
            assert(false);
        }
    }
}

/// A serialized number-or-null, followed by a character that is neither a
/// digit nor part of "null", parses back to itself.
proof fn lemma_sp_opt_u64_rt(o: Option<u64>, rest: Seq<char>)
    requires
        rest.len() == 0 || !is_digit(rest[0]),
    ensures
        sp_opt_u64(ser_opt_u64(o) + rest) == Some((o, ser_opt_u64(o).len() as int)),
{
    reveal_strlit("null");
    let t = ser_opt_u64(o) + rest;
    match o {
        None => {
            lemma_sp_lit_rt("null"@, rest);
        },
        Some(n) => {
            lemma_digits_all(n as int);
            assert(t[0] == digits_of(n as int)[0]);
            assert(is_digit(t[0]));
            if sp_lit(t, "null"@) is Some {
                assert(t.take(4) == "null"@);
                assert(t.take(4)[0] == 'n');
                assert(!is_digit('n'));
                assert(false);
            }
            lemma_sp_u64_rt(n, rest);
        },
    }
}

/// A serialized string-or-null parses back to itself.
proof fn lemma_sp_opt_string_rt(o: Option<Seq<char>>, rest: Seq<char>)
    ensures
        sp_opt_string(ser_opt_string(o) + rest) == Some((o, ser_opt_string(o).len() as int)),
{
    reveal_strlit("null");
    let t = ser_opt_string(o) + rest;
    match o {
        None => {
            lemma_sp_lit_rt("null"@, rest);
        },
        Some(s) => {
            assert(t[0] == '"');
            if sp_lit(t, "null"@) is Some {
                assert(t.take(4) == "null"@);
                assert(t.take(4)[0] == 'n');
                assert(false);
            }
            lemma_sp_string_rt(s, rest);
        },
    }
}


/// A serialized session is never empty.
proof fn lemma_ser_session_len(s: SessionV)
    ensures
        ser_session(s).len() >= 6,
{
    reveal(ser_session);
    reveal_strlit("{\"id\":");
}

/// The second half of a serialized session object parses back correctly.
#[verifier::rlimit(100)]
#[verifier::spinoff_prover]
proof fn lemma_sp_session_tail_rt(t: Seq<char>, s: SessionV, p: int, rest: Seq<char>)
    requires
        0 <= p <= t.len(),
        rest.len() <= t.len() - p,
        t.skip(p) == ",\"preview\":"@ + (ser_string(s.preview) + (",\"transcript_path\":"@ + (
        ser_string(s.transcript_path) + (",\"clipboard_copied\":"@ + (ser_bool(
            s.clipboard_copied,
        ) + (",\"transcription_time_ms\":"@ + (ser_opt_u64(s.transcription_time_ms) + (
        ",\"model_path\":"@ + (ser_opt_string(s.model_path) + ("}"@ + rest)))))))))),
    ensures
        sp_session_tail(t, s.id, s.timestamp, s.audio_path, s.duration_ms as int, p) == Some(
            (s, t.len() - rest.len()),
        ),
{
    reveal_strlit(",\"model_path\":");
    let u9 = "}"@ + rest;
    let u8v = ser_opt_string(s.model_path) + u9;
    let u8 = ",\"model_path\":"@ + u8v;
    let u7v = ser_opt_u64(s.transcription_time_ms) + u8;
    let u7 = ",\"transcription_time_ms\":"@ + u7v;
    let u6v = ser_bool(s.clipboard_copied) + u7;
    let u6 = ",\"clipboard_copied\":"@ + u6v;
    let u5v = ser_string(s.transcript_path) + u6;
    let u5 = ",\"transcript_path\":"@ + u5v;
    let u4v = ser_string(s.preview) + u5;
    let u4 = ",\"preview\":"@ + u4v;
    assert(t.skip(p) == u4);

    let l4 = ",\"preview\":"@.len() as int;
    let n5 = ser_string(s.preview).len() as int;
    let l5 = ",\"transcript_path\":"@.len() as int;
    let n6 = ser_string(s.transcript_path).len() as int;
    let l6 = ",\"clipboard_copied\":"@.len() as int;
    let n7 = ser_bool(s.clipboard_copied).len() as int;
    let l7 = ",\"transcription_time_ms\":"@.len() as int;
    let n8 = ser_opt_u64(s.transcription_time_ms).len() as int;
    let l8 = ",\"model_path\":"@.len() as int;
    let n9 = ser_opt_string(s.model_path).len() as int;
    let l9 = "}"@.len() as int;

    lemma_sp_lit_rt(",\"preview\":"@, u4v);
    lemma_seq_skip_of_skip(t, p, l4);
    assert(u4.skip(l4) =~= u4v);
    assert(t.skip(p + l4) == u4v);

    lemma_sp_string_rt(s.preview, u5);
    lemma_seq_skip_of_skip(t, p + l4, n5);
    assert(u4v.skip(n5) =~= u5);
    assert(t.skip(p + l4 + n5) == u5);

    lemma_sp_lit_rt(",\"transcript_path\":"@, u5v);
    lemma_seq_skip_of_skip(t, p + l4 + n5, l5);
    assert(u5.skip(l5) =~= u5v);
    assert(t.skip(p + l4 + n5 + l5) == u5v);

    lemma_sp_string_rt(s.transcript_path, u6);
    lemma_seq_skip_of_skip(t, p + l4 + n5 + l5, n6);
    assert(u5v.skip(n6) =~= u6);
    assert(t.skip(p + l4 + n5 + l5 + n6) == u6);

    lemma_sp_lit_rt(",\"clipboard_copied\":"@, u6v);
    lemma_seq_skip_of_skip(t, p + l4 + n5 + l5 + n6, l6);
    assert(u6.skip(l6) =~= u6v);
    assert(t.skip(p + l4 + n5 + l5 + n6 + l6) == u6v);

    lemma_sp_bool_rt(s.clipboard_copied, u7);
    lemma_seq_skip_of_skip(t, p + l4 + n5 + l5 + n6 + l6, n7);
    assert(u6v.skip(n7) =~= u7);
    assert(t.skip(p + l4 + n5 + l5 + n6 + l6 + n7) == u7);

    lemma_sp_lit_rt(",\"transcription_time_ms\":"@, u7v);
    lemma_seq_skip_of_skip(t, p + l4 + n5 + l5 + n6 + l6 + n7, l7);
    assert(u7.skip(l7) =~= u7v);
    assert(t.skip(p + l4 + n5 + l5 + n6 + l6 + n7 + l7) == u7v);

    assert(u8[0] == ',');
    assert(!is_digit(','));
    lemma_sp_opt_u64_rt(s.transcription_time_ms, u8);
    lemma_seq_skip_of_skip(t, p + l4 + n5 + l5 + n6 + l6 + n7 + l7, n8);
    assert(u7v.skip(n8) =~= u8);
    assert(t.skip(p + l4 + n5 + l5 + n6 + l6 + n7 + l7 + n8) == u8);

    lemma_sp_lit_rt(",\"model_path\":"@, u8v);
    lemma_seq_skip_of_skip(t, p + l4 + n5 + l5 + n6 + l6 + n7 + l7 + n8, l8);
    assert(u8.skip(l8) =~= u8v);
    assert(t.skip(p + l4 + n5 + l5 + n6 + l6 + n7 + l7 + n8 + l8) == u8v);

    lemma_sp_opt_string_rt(s.model_path, u9);
    lemma_seq_skip_of_skip(t, p + l4 + n5 + l5 + n6 + l6 + n7 + l7 + n8 + l8, n9);
    assert(u8v.skip(n9) =~= u9);
    assert(t.skip(p + l4 + n5 + l5 + n6 + l6 + n7 + l7 + n8 + l8 + n9) == u9);

    lemma_sp_lit_rt("}"@, rest);

    let total = p + l4 + n5 + l5 + n6 + l6 + n7 + l7 + n8 + l8 + n9 + l9;
    assert(total == t.len() - rest.len());
    assert((SessionV {
        id: s.id,
        timestamp: s.timestamp,
        audio_path: s.audio_path,
        duration_ms: ((s.duration_ms as int) as u64),
        preview: s.preview,
        transcript_path: s.transcript_path,
        clipboard_copied: s.clipboard_copied,
        transcription_time_ms: s.transcription_time_ms,
        model_path: s.model_path,
    }) =~= s);
}

/// Sequence concatenation is associative.
proof fn lemma_add_assoc(x: Seq<char>, y: Seq<char>, z: Seq<char>)
    ensures
        (x + y) + z == x + (y + z),
{
    assert((x + y) + z =~= x + (y + z));
}

/// A serialized session, written out as a right-nested concatenation.
proof fn lemma_ser_session_flatten(s: SessionV, rest: Seq<char>)
    ensures
        ser_session(s) + rest == "{\"id\":"@ + (ser_string(s.id) + (",\"timestamp\":"@ + (
        ser_string(s.timestamp) + (",\"audio_path\":"@ + (ser_string(s.audio_path) + (
        ",\"duration_ms\":"@ + (digits_of(s.duration_ms as int) + (",\"preview\":"@ + (
        ser_string(s.preview) + (",\"transcript_path\":"@ + (ser_string(s.transcript_path) + (
        ",\"clipboard_copied\":"@ + (ser_bool(s.clipboard_copied) + (
        ",\"transcription_time_ms\":"@ + (ser_opt_u64(s.transcription_time_ms) + (
        ",\"model_path\":"@ + (ser_opt_string(s.model_path) + ("}"@ + rest)))))))))))))))))),
{
    reveal(ser_session);
    let t1 = "{\"id\":"@;
    let t2 = ser_string(s.id);
    let t3 = ",\"timestamp\":"@;
    let t4 = ser_string(s.timestamp);
    let t5 = ",\"audio_path\":"@;
    let t6 = ser_string(s.audio_path);
    let t7 = ",\"duration_ms\":"@;
    let t8 = digits_of(s.duration_ms as int);
    let t9 = ",\"preview\":"@;
    let t10 = ser_string(s.preview);
    let t11 = ",\"transcript_path\":"@;
    let t12 = ser_string(s.transcript_path);
    let t13 = ",\"clipboard_copied\":"@;
    let t14 = ser_bool(s.clipboard_copied);
    let t15 = ",\"transcription_time_ms\":"@;
    let t16 = ser_opt_u64(s.transcription_time_ms);
    let t17 = ",\"model_path\":"@;
    let t18 = ser_opt_string(s.model_path);
    let t19 = "}"@;
    let q1 = t1;
    let q2 = q1 + t2;
    let q3 = q2 + t3;
    let q4 = q3 + t4;
    let q5 = q4 + t5;
    let q6 = q5 + t6;
    let q7 = q6 + t7;
    let q8 = q7 + t8;
    let q9 = q8 + t9;
    let q10 = q9 + t10;
    let q11 = q10 + t11;
    let q12 = q11 + t12;
    let q13 = q12 + t13;
    let q14 = q13 + t14;
    let q15 = q14 + t15;
    let q16 = q15 + t16;
    let q17 = q16 + t17;
    let q18 = q17 + t18;
    let q19 = q18 + t19;
    assert(ser_session(s) == q19);
    let r19 = rest;
    let r18 = t19 + r19;
    let r17 = t18 + r18;
    let r16 = t17 + r17;
    let r15 = t16 + r16;
    let r14 = t15 + r15;
    let r13 = t14 + r14;
    let r12 = t13 + r13;
    let r11 = t12 + r12;
    let r10 = t11 + r11;
    let r9 = t10 + r10;
    let r8 = t9 + r9;
    let r7 = t8 + r8;
    let r6 = t7 + r7;
    let r5 = t6 + r6;
    let r4 = t5 + r5;
    let r3 = t4 + r4;
    let r2 = t3 + r3;
    let r1 = t2 + r2;
    let r0 = t1 + r1;
    assert(q19 + r19 == q18 + r18) by { lemma_add_assoc(q18, t19, r19); }
    assert(q18 + r18 == q17 + r17) by { lemma_add_assoc(q17, t18, r18); }
    assert(q17 + r17 == q16 + r16) by { lemma_add_assoc(q16, t17, r17); }
    assert(q16 + r16 == q15 + r15) by { lemma_add_assoc(q15, t16, r16); }
    assert(q15 + r15 == q14 + r14) by { lemma_add_assoc(q14, t15, r15); }
    assert(q14 + r14 == q13 + r13) by { lemma_add_assoc(q13, t14, r14); }
    assert(q13 + r13 == q12 + r12) by { lemma_add_assoc(q12, t13, r13); }
    assert(q12 + r12 == q11 + r11) by { lemma_add_assoc(q11, t12, r12); }
    assert(q11 + r11 == q10 + r10) by { lemma_add_assoc(q10, t11, r11); }
    assert(q10 + r10 == q9 + r9) by { lemma_add_assoc(q9, t10, r10); }
    assert(q9 + r9 == q8 + r8) by { lemma_add_assoc(q8, t9, r9); }
    assert(q8 + r8 == q7 + r7) by { lemma_add_assoc(q7, t8, r8); }
    assert(q7 + r7 == q6 + r6) by { lemma_add_assoc(q6, t7, r7); }
    assert(q6 + r6 == q5 + r5) by { lemma_add_assoc(q5, t6, r6); }
    assert(q5 + r5 == q4 + r4) by { lemma_add_assoc(q4, t5, r5); }
    assert(q4 + r4 == q3 + r3) by { lemma_add_assoc(q3, t4, r4); }
    assert(q3 + r3 == q2 + r2) by { lemma_add_assoc(q2, t3, r3); }
    assert(q2 + r2 == q1 + r1) by { lemma_add_assoc(q1, t2, r2); }
    assert(q1 + r1 == r0) by { assert(t1 + r1 == r0); }
}

/// A serialized session object parses back to itself, whatever follows it.
#[verifier::rlimit(100)]
#[verifier::spinoff_prover]
proof fn lemma_sp_session_rt(s: SessionV, rest: Seq<char>)
    ensures
        sp_session(ser_session(s) + rest) == Some((s, ser_session(s).len() as int)),
{
    reveal_strlit(",\"preview\":");
    let u9 = "}"@ + rest;
    let u8v = ser_opt_string(s.model_path) + u9;
    let u8 = ",\"model_path\":"@ + u8v;
    let u7v = ser_opt_u64(s.transcription_time_ms) + u8;
    let u7 = ",\"transcription_time_ms\":"@ + u7v;
    let u6v = ser_bool(s.clipboard_copied) + u7;
    let u6 = ",\"clipboard_copied\":"@ + u6v;
    let u5v = ser_string(s.transcript_path) + u6;
    let u5 = ",\"transcript_path\":"@ + u5v;
    let u4v = ser_string(s.preview) + u5;
    let u4 = ",\"preview\":"@ + u4v;
    let u3v = digits_of(s.duration_ms as int) + u4;
    let u3 = ",\"duration_ms\":"@ + u3v;
    let u2v = ser_string(s.audio_path) + u3;
    let u2 = ",\"audio_path\":"@ + u2v;
    let u1v = ser_string(s.timestamp) + u2;
    let u1 = ",\"timestamp\":"@ + u1v;
    let u0v = ser_string(s.id) + u1;
    let t = "{\"id\":"@ + u0v;
    lemma_ser_session_flatten(s, rest);
    assert(ser_session(s) + rest == t);

    let l0 = "{\"id\":"@.len() as int;
    let n1 = ser_string(s.id).len() as int;
    let l1 = ",\"timestamp\":"@.len() as int;
    let n2 = ser_string(s.timestamp).len() as int;
    let l2 = ",\"audio_path\":"@.len() as int;
    let n3 = ser_string(s.audio_path).len() as int;
    let l3 = ",\"duration_ms\":"@.len() as int;
    let n4 = digits_of(s.duration_ms as int).len() as int;

    lemma_sp_lit_rt("{\"id\":"@, u0v);
    assert(t.skip(l0) =~= u0v);

    lemma_sp_string_rt(s.id, u1);
    lemma_seq_skip_of_skip(t, l0, n1);
    assert(u0v.skip(n1) =~= u1);
    assert(t.skip(l0 + n1) == u1);

    lemma_sp_lit_rt(",\"timestamp\":"@, u1v);
    lemma_seq_skip_of_skip(t, l0 + n1, l1);
    assert(u1.skip(l1) =~= u1v);
    assert(t.skip(l0 + n1 + l1) == u1v);

    lemma_sp_string_rt(s.timestamp, u2);
    lemma_seq_skip_of_skip(t, l0 + n1 + l1, n2);
    assert(u1v.skip(n2) =~= u2);
    assert(t.skip(l0 + n1 + l1 + n2) == u2);

    lemma_sp_lit_rt(",\"audio_path\":"@, u2v);
    lemma_seq_skip_of_skip(t, l0 + n1 + l1 + n2, l2);
    assert(u2.skip(l2) =~= u2v);
    assert(t.skip(l0 + n1 + l1 + n2 + l2) == u2v);

    lemma_sp_string_rt(s.audio_path, u3);
    lemma_seq_skip_of_skip(t, l0 + n1 + l1 + n2 + l2, n3);
    assert(u2v.skip(n3) =~= u3);
    assert(t.skip(l0 + n1 + l1 + n2 + l2 + n3) == u3);

    lemma_sp_lit_rt(",\"duration_ms\":"@, u3v);
    lemma_seq_skip_of_skip(t, l0 + n1 + l1 + n2 + l2 + n3, l3);
    assert(u3.skip(l3) =~= u3v);
    assert(t.skip(l0 + n1 + l1 + n2 + l2 + n3 + l3) == u3v);

    assert(u4[0] == ',');
    assert(!is_digit(','));
    lemma_sp_u64_rt(s.duration_ms, u4);
    lemma_seq_skip_of_skip(t, l0 + n1 + l1 + n2 + l2 + n3 + l3, n4);
    assert(u3v.skip(n4) =~= u4);
    let p = l0 + n1 + l1 + n2 + l2 + n3 + l3 + n4;
    assert(t.skip(p) == u4);

    lemma_sp_session_tail_rt(t, s, p, rest);
    assert(t.len() - rest.len() == ser_session(s).len() as int);
    assert(sp_session(t) == Some((s, ser_session(s).len() as int)));
}

/// The tail of a serialized list: every session after the first, each behind
/// a comma.
spec fn ser_more(ix: Seq<SessionV>) -> Seq<char>
    decreases ix.len(),
{
    if ix.len() == 0 {
        Seq::empty()
    } else {
        seq![','] + ser_session(ix[0]) + ser_more(ix.drop_first())
    }
}

/// A serialized list is its first session followed by the comma-led tail.
proof fn lemma_ser_sessions_split(ix: Seq<SessionV>)
    requires
        ix.len() >= 1,
    ensures
        ser_sessions(ix) == ser_session(ix[0]) + ser_more(ix.drop_first()),
    decreases ix.len(),
{
    if ix.len() == 1 {
        assert(ser_more(ix.drop_first()) =~= Seq::<char>::empty());
        assert(ser_session(ix[0]) + Seq::<char>::empty() =~= ser_session(ix[0]));
    } else {
        lemma_ser_sessions_split(ix.drop_last());
        assert(ix.drop_last()[0] == ix[0]);
        assert(ix.drop_last().drop_first() =~= ix.drop_first().drop_last());
        lemma_ser_more_push(ix.drop_first().drop_last(), ix.last());
        assert(ix.drop_first().drop_last().push(ix.last()) =~= ix.drop_first());
        assert(ser_sessions(ix) == ser_sessions(ix.drop_last()) + seq![','] + ser_session(
            ix.last(),
        ));
        assert(ser_sessions(ix) =~= ser_session(ix[0]) + ser_more(ix.drop_first()));
    }
}

/// Appending one session to the tail extends its serialization at the end.
proof fn lemma_ser_more_push(ix: Seq<SessionV>, s: SessionV)
    ensures
        ser_more(ix.push(s)) == ser_more(ix) + seq![','] + ser_session(s),
    decreases ix.len(),
{
    if ix.len() == 0 {
        assert(ix.push(s)[0] == s);
        assert(ix.push(s).drop_first() =~= Seq::<SessionV>::empty());
        assert(ser_more(Seq::<SessionV>::empty()) =~= Seq::<char>::empty());
        assert(ser_more(ix.push(s)) == seq![','] + ser_session(s) + ser_more(
            ix.push(s).drop_first(),
        ));
        assert(ser_more(ix.push(s)) =~= ser_more(ix) + seq![','] + ser_session(s));
    } else {
        assert(ix.push(s)[0] == ix[0]);
        assert(ix.push(s).drop_first() =~= ix.drop_first().push(s));
        lemma_ser_more_push(ix.drop_first(), s);
        assert(ser_more(ix.push(s)) =~= ser_more(ix) + seq![','] + ser_session(s));
    }
}

/// The comma-led tail parses back to its sessions, provided what follows
/// does not begin with another comma.
proof fn lemma_sp_more_rt(ix: Seq<SessionV>, rest: Seq<char>)
    requires
        rest.len() == 0 || rest[0] != ',',
    ensures
        sp_sessions_rest(ser_more(ix) + rest) == Some((ix, ser_more(ix).len() as int)),
    decreases ix.len(),
{
    let t = ser_more(ix) + rest;
    if ix.len() == 0 {
        assert(t =~= rest);
        assert(ix =~= Seq::<SessionV>::empty());
    } else {
        let s0 = ix[0];
        let ixr = ix.drop_first();
        assert(t =~= seq![','] + (ser_session(s0) + (ser_more(ixr) + rest)));
        assert(t[0] == ',');
        assert(t.skip(1) =~= ser_session(s0) + (ser_more(ixr) + rest));
        lemma_sp_session_rt(s0, ser_more(ixr) + rest);
        lemma_ser_session_len(s0);
        let n = ser_session(s0).len() as int;
        assert(1 + n <= t.len());
        assert(t.skip(1 + n) =~= ser_more(ixr) + rest);
        lemma_sp_more_rt(ixr, rest);
        assert(seq![s0] + ixr =~= ix);
    }
}

/// A serialized list parses back to its sessions, provided what follows does
/// not begin with a comma.
proof fn lemma_sp_sessions_rt(ix: Seq<SessionV>, rest: Seq<char>)
    requires
        ix.len() >= 1,
        rest.len() == 0 || rest[0] != ',',
    ensures
        sp_sessions(ser_sessions(ix) + rest) == Some((ix, ser_sessions(ix).len() as int)),
{
    let t = ser_sessions(ix) + rest;
    lemma_ser_sessions_split(ix);
    assert(t =~= ser_session(ix[0]) + (ser_more(ix.drop_first()) + rest));
    lemma_sp_session_rt(ix[0], ser_more(ix.drop_first()) + rest);
    lemma_ser_session_len(ix[0]);
    let n = ser_session(ix[0]).len() as int;
    assert(n <= t.len());
    assert(t.skip(n) =~= ser_more(ix.drop_first()) + rest);
    lemma_sp_more_rt(ix.drop_first(), rest);
    assert(seq![ix[0]] + ix.drop_first() =~= ix);
}

/// Law: serializing a session list and parsing the document back yields the
/// identical ordered session list — the ledger survives a round trip through
/// its on-disk form.
pub proof fn lemma_json_round_trip(ix: Seq<SessionV>)
    ensures
        sp_index(ser_index(ix)) == Some(ix),
{
    reveal_strlit("]}");
    let h = "{\"sessions\":["@;
    let e = "]}"@;
    let t = ser_index(ix);
    assert(t =~= h + (ser_sessions(ix) + e));
    lemma_sp_lit_rt(h, ser_sessions(ix) + e);
    assert(t.skip(h.len() as int) =~= ser_sessions(ix) + e);
    let rest0 = t.skip(h.len() as int);
    if ix.len() == 0 {
        assert(ser_sessions(ix) =~= Seq::<char>::empty());
        assert(rest0 =~= e);
        assert(rest0 == e);
    } else {
        lemma_ser_session_len(ix[0]);
        lemma_ser_sessions_split(ix);
        assert(ser_sessions(ix).len() >= 6);
        assert(rest0.len() > 2);
        assert(rest0 != e);
        assert(e[0] == ']');
        lemma_sp_sessions_rt(ix, e);
        let n = ser_sessions(ix).len() as int;
        assert(rest0.skip(n) =~= e);
        assert(rest0.skip(n) == e);
    }
}


// ---------------------------------------------------------------------------
// The parser, executable: each function returns exactly what the
// specification-level parser says for its input.
// ---------------------------------------------------------------------------
/// A string body consumes at least its closing quote.
proof fn lemma_sp_str_body_pos(t: Seq<char>)
    ensures
        match sp_str_body(t) {
            Some(p) => p.1 >= 1,
            None => true,
        },
    decreases t.len(),
{
    if t.len() == 0 {
    } else if t[0] == '"' {
    } else if t[0] == '\\' {
        if t.len() >= 2 {
            lemma_sp_str_body_pos(t.skip(2));
        }
    } else {
        lemma_sp_str_body_pos(t.skip(1));
    }
}

/// A digit run never consumes a negative count.
proof fn lemma_sp_digits_nonneg(t: Seq<char>, acc: int)
    ensures
        sp_digits(t, acc).1 >= 0,
    decreases t.len(),
{
    if t.len() > 0 && is_digit(t[0]) {
        lemma_sp_digits_nonneg(t.skip(1), acc * 10 + digit_val(t[0]));
    }
}

/// The value of a digit run only grows from its accumulator.
proof fn lemma_sp_digits_ge(t: Seq<char>, acc: int)
    requires
        acc >= 0,
    ensures
        sp_digits(t, acc).0 >= acc,
    decreases t.len(),
{
    if t.len() > 0 && is_digit(t[0]) {
        lemma_sp_digits_ge(t.skip(1), acc * 10 + digit_val(t[0]));
    }
}

/// Whether a character is a decimal digit, decidable in code.
fn is_digit_exec(c: char) -> (r: bool)
    ensures
        r == is_digit(c),
{
    c == '0' || c == '1' || c == '2' || c == '3' || c == '4' || c == '5' || c == '6' || c == '7'
        || c == '8' || c == '9'
}

/// Consume a fixed literal at `pos`.
fn parse_lit(v: &Vec<char>, pos: usize, lit: &str) -> (r: Option<usize>)
    requires
        pos <= v@.len(),
    ensures
        match sp_lit(v@.skip(pos as int), lit@) {
            Some(n) => r matches Some(j) && j == pos + n && j <= v@.len(),
            None => r is None,
        },
{
    let ghost t = v@.skip(pos as int);
    let n = lit.unicode_len();
    if n > v.len() - pos {
        proof {
            assert(lit@.len() > t.len());
        }
        return None;
    }
    let mut i: usize = 0;
    while i < n
        invariant
            i <= n,
            n == lit@.len(),
            pos <= v@.len(),
            n <= v@.len() - pos,
            v@.len() <= usize::MAX,
            t == v@.skip(pos as int),
            forall|k: int| 0 <= k < i ==> t[k] == lit@[k],
        decreases n - i,
    {
        if v[pos + i] != lit.get_char(i) {
            proof {
                assert(t[i as int] == v@[pos + i]);
                if sp_lit(t, lit@) is Some {
                    assert(t.take(n as int) == lit@);
                    assert(t.take(n as int)[i as int] == t[i as int]);
                    assert(false);
                }
            }
            return None;
        }
        i = i + 1;
    }
    proof {
        assert(t.take(n as int) =~= lit@);
    }
    Some(pos + n)
}

/// Consume a JSON string literal at `pos`.
fn parse_string_at(v: &Vec<char>, pos: usize) -> (r: Option<(Vec<char>, usize)>)
    requires
        pos <= v@.len(),
    ensures
        match sp_string(v@.skip(pos as int)) {
            Some(p) => r matches Some(q) && q.0@ == p.0 && q.1 == pos + p.1 && q.1 <= v@.len(),
            None => r is None,
        },
{
    let ghost t = v@.skip(pos as int);
    if pos >= v.len() {
        return None;
    }
    if v[pos] != '"' {
        proof {
            assert(t[0] == v@[pos as int]);
        }
        return None;
    }
    proof {
        assert(t[0] == '"');
        lemma_seq_skip_of_skip(v@, pos as int, 1);
    }
    let mut out: Vec<char> = Vec::new();
    let mut i: usize = pos + 1;
    loop
        invariant
            pos + 1 <= i <= v@.len(),
            t == v@.skip(pos as int),
            t.len() > 0 && t[0] == '"',
            v@.skip(pos as int + 1) == t.skip(1),
            match sp_str_body(v@.skip(i as int)) {
                Some(p) => sp_str_body(t.skip(1)) == Some(
                    (out@ + p.0, p.1 + (i - pos - 1)),
                ),
                None => sp_str_body(t.skip(1)) is None,
            },
        decreases v@.len() - i,
    {
        if i >= v.len() {
            proof {
                assert(v@.skip(i as int).len() == 0);
            }
            return None;
        }
        let c = v[i];
        proof {
            assert(v@.skip(i as int)[0] == v@[i as int]);
        }
        if c == '"' {
            proof {
                assert(sp_str_body(v@.skip(i as int)) == Some((Seq::<char>::empty(), 1int)));
                assert(out@ + Seq::<char>::empty() =~= out@);
            }
            return Some((out, i + 1));
        } else if c == '\\' {
            if i + 1 >= v.len() {
                proof {
                    assert(v@.skip(i as int).len() < 2);
                }
                return None;
            }
            let d = v[i + 1];
            proof {
                assert(v@.skip(i as int)[1] == v@[i + 1]);
                lemma_seq_skip_of_skip(v@, i as int, 2);
            }
            let u: Option<char> = if d == '"' {
                Some('"')
            } else if d == '\\' {
                Some('\\')
            } else if d == 'n' {
                Some('\n')
            } else if d == 'r' {
                Some('\r')
            } else if d == 't' {
                Some('\t')
            } else {
                None
            };
            match u {
                Some(dc) => {
                    let ghost old_out = out@;
                    out.push(dc);
                    proof {
                        assert(unesc_char(d) == Some(dc));
                        assert forall|p0: Seq<char>, p1: int|
                            sp_str_body(v@.skip(i + 2)) == Some((p0, p1)) implies old_out + (seq![
                            dc,
                        ] + p0) =~= out@ + p0 by {}
                    }
                    i = i + 2;
                },
                None => {
                    proof {
                        assert(unesc_char(d) is None);
                    }
                    return None;
                },
            }
        } else {
            let ghost old_out = out@;
            out.push(c);
            proof {
                lemma_seq_skip_of_skip(v@, i as int, 1);
                assert forall|p0: Seq<char>, p1: int|
                    sp_str_body(v@.skip(i + 1)) == Some((p0, p1)) implies old_out + (seq![c] + p0)
                    =~= out@ + p0 by {}
            }
            i = i + 1;
        }
    }
}

/// Consume a decimal number at `pos`.
fn parse_u64_at(v: &Vec<char>, pos: usize) -> (r: Option<(u64, usize)>)
    requires
        pos <= v@.len(),
    ensures
        match sp_u64(v@.skip(pos as int)) {
            Some(p) => r matches Some(q) && q.0 as int == p.0 && q.1 == pos + p.1 && q.1
                <= v@.len(),
            None => r is None,
        },
{
    let ghost t = v@.skip(pos as int);
    if pos >= v.len() {
        return None;
    }
    if !is_digit_exec(v[pos]) {
        proof {
            assert(t[0] == v@[pos as int]);
        }
        return None;
    }
    let mut acc: u128 = 0;
    let mut i: usize = pos;
    proof {
        assert(t[0] == v@[pos as int]);
        assert(t.len() > 0 && is_digit(t[0]));
    }
    while i < v.len() && is_digit_exec(v[i])
        invariant
            pos <= i <= v@.len(),
            v@.len() <= usize::MAX,
            t == v@.skip(pos as int),
            t.len() > 0 && is_digit(t[0]),
            acc <= u64::MAX,
            sp_digits(t, 0).0 == sp_digits(v@.skip(i as int), acc as int).0,
            sp_digits(t, 0).1 == sp_digits(v@.skip(i as int), acc as int).1 + (i - pos),
        decreases v@.len() - i,
    {
        let c = v[i];
        proof {
            assert(v@.skip(i as int)[0] == v@[i as int]);
        }
        let d: u128 = digit_val_exec(c) as u128;
        proof {
            lemma_seq_skip_of_skip(v@, i as int, 1);
            lemma_sp_digits_nonneg(v@.skip(i + 1), acc as int * 10 + d as int);
        }
        acc = acc * 10 + d;
        i = i + 1;
        if acc > 0xffffffffffffffff {
            proof {
                lemma_sp_digits_ge(v@.skip(i as int), acc as int);
            }
            return None;
        }
    }
    proof {
        if i < v@.len() {
            assert(v@.skip(i as int)[0] == v@[i as int]);
            assert(!is_digit(v@.skip(i as int)[0]));
        } else {
            assert(v@.skip(i as int).len() == 0);
        }
        assert(sp_digits(v@.skip(i as int), acc as int) == (acc as int, 0int));
    }
    proof {
        assert(sp_digits(t, 0).0 == acc as int);
        lemma_sp_digits_nonneg(t, 0);
    }
    Some((acc as u64, i))
}

/// The value of one decimal digit character.
fn digit_val_exec(c: char) -> (r: u8)
    requires
        is_digit(c),
    ensures
        r as int == digit_val(c),
        r < 10,
{
    if c == '0' {
        0
    } else if c == '1' {
        1
    } else if c == '2' {
        2
    } else if c == '3' {
        3
    } else if c == '4' {
        4
    } else if c == '5' {
        5
    } else if c == '6' {
        6
    } else if c == '7' {
        7
    } else if c == '8' {
        8
    } else {
        9
    }
}


/// Consume a JSON boolean at `pos`.
fn parse_bool_at(v: &Vec<char>, pos: usize) -> (r: Option<(bool, usize)>)
    requires
        pos <= v@.len(),
    ensures
        match sp_bool(v@.skip(pos as int)) {
            Some(p) => r matches Some(q) && q.0 == p.0 && q.1 == pos + p.1 && q.1 <= v@.len(),
            None => r is None,
        },
{
    proof {
        reveal_strlit("true");
        reveal_strlit("false");
    }
    match parse_lit(v, pos, "true") {
        Some(j) => Some((true, j)),
        None => match parse_lit(v, pos, "false") {
            Some(j) => Some((false, j)),
            None => None,
        },
    }
}

/// Consume a number-or-null at `pos`.
fn parse_opt_u64_at(v: &Vec<char>, pos: usize) -> (r: Option<(Option<u64>, usize)>)
    requires
        pos <= v@.len(),
    ensures
        match sp_opt_u64(v@.skip(pos as int)) {
            Some(p) => r matches Some(q) && q.0 == p.0 && q.1 == pos + p.1 && q.1 <= v@.len(),
            None => r is None,
        },
{
    proof {
        reveal_strlit("null");
    }
    match parse_lit(v, pos, "null") {
        Some(j) => Some((None, j)),
        None => match parse_u64_at(v, pos) {
            Some((n, j)) => Some((Some(n), j)),
            None => None,
        },
    }
}

/// Consume a string-or-null at `pos`.
fn parse_opt_string_at(v: &Vec<char>, pos: usize) -> (r: Option<(Option<Vec<char>>, usize)>)
    requires
        pos <= v@.len(),
    ensures
        match sp_opt_string(v@.skip(pos as int)) {
            Some(p) => r matches Some(q) && (match (q.0, p.0) {
                (Some(qs), Some(ps)) => qs@ == ps,
                (None, None) => true,
                _ => false,
            }) && q.1 == pos + p.1 && q.1 <= v@.len(),
            None => r is None,
        },
{
    proof {
        reveal_strlit("null");
    }
    match parse_lit(v, pos, "null") {
        Some(j) => Some((None, j)),
        None => match parse_string_at(v, pos) {
            Some((s, j)) => Some((Some(s), j)),
            None => None,
        },
    }
}

/// Helper bounds: each production consumes a nonnegative count.
proof fn lemma_sp_string_nonneg(t: Seq<char>)
    ensures
        match sp_string(t) {
            Some(p) => p.1 >= 2,
            None => true,
        },
{
    if t.len() > 0 && t[0] == '"' {
        lemma_sp_str_body_pos(t.skip(1));
    }
}

proof fn lemma_sp_u64_nonneg(t: Seq<char>)
    ensures
        match sp_u64(t) {
            Some(p) => p.1 >= 0,
            None => true,
        },
{
    if t.len() > 0 && is_digit(t[0]) {
        lemma_sp_digits_nonneg(t, 0);
    }
}

proof fn lemma_sp_bool_nonneg(t: Seq<char>)
    ensures
        match sp_bool(t) {
            Some(p) => p.1 >= 0,
            None => true,
        },
{
}

proof fn lemma_sp_opt_u64_nonneg(t: Seq<char>)
    ensures
        match sp_opt_u64(t) {
            Some(p) => p.1 >= 0,
            None => true,
        },
{
    lemma_sp_u64_nonneg(t);
}

proof fn lemma_sp_opt_string_nonneg(t: Seq<char>)
    ensures
        match sp_opt_string(t) {
            Some(p) => p.1 >= 0,
            None => true,
        },
{
    lemma_sp_string_nonneg(t);
}

/// Consume the second half of a session object: from the preview key to the
/// closing brace.
#[verifier::rlimit(100)]
#[verifier::spinoff_prover]
fn parse_session_tail_at(
    v: &Vec<char>,
    jp: usize,
    Ghost(t): Ghost<Seq<char>>,
    Ghost(pos): Ghost<int>,
    id: &Vec<char>,
    timestamp: &Vec<char>,
    audio_path: &Vec<char>,
    duration_ms: u64,
) -> (r: Option<(Session, usize)>)
    requires
        0 <= pos <= jp <= v@.len(),
        t == v@.skip(pos),
    ensures
        match sp_session_tail(t, id@, timestamp@, audio_path@, duration_ms as int, jp - pos) {
            Some(p) => r matches Some(q) && q.0@ == p.0 && q.1 as int == pos + p.1 && q.1
                <= v@.len(),
            None => r is None,
        },
{
    proof {
        lemma_seq_skip_of_skip(v@, pos, jp - pos);
        assert(t.skip(jp - pos) == v@.skip(jp as int));
    }
    let k0 = match parse_lit(v, jp, ",\"preview\":") {
        Some(j) => j,
        None => {
            proof {
                assert(sp_session_tail(t, id@, timestamp@, audio_path@, duration_ms as int, jp - pos) is None);
            }
            return None;
        },
    };
    proof {
        assert(sp_lit(v@.skip(jp as int), ",\"preview\":"@) == Some((k0 - jp) as int));
        lemma_seq_skip_of_skip(v@, pos as int, (k0 - pos) as int);
        assert(t.skip((k0 - pos) as int) == v@.skip(k0 as int));
    }
    let (preview, k1) = match parse_string_at(v, k0) {
        Some(x) => x,
        None => {
            proof {
                assert(sp_session_tail(t, id@, timestamp@, audio_path@, duration_ms as int, jp - pos) is None);
            }
            return None;
        },
    };
    proof {
        lemma_sp_string_nonneg(v@.skip(k0 as int));
        lemma_seq_skip_of_skip(v@, pos as int, (k1 - pos) as int);
        assert(t.skip((k1 - pos) as int) == v@.skip(k1 as int));
    }
    let k2 = match parse_lit(v, k1, ",\"transcript_path\":") {
        Some(j) => j,
        None => {
            proof {
                assert(sp_session_tail(t, id@, timestamp@, audio_path@, duration_ms as int, jp - pos) is None);
            }
            return None;
        },
    };
    proof {
        assert(sp_lit(v@.skip(k1 as int), ",\"transcript_path\":"@) == Some((k2 - k1) as int));
        lemma_seq_skip_of_skip(v@, pos as int, (k2 - pos) as int);
        assert(t.skip((k2 - pos) as int) == v@.skip(k2 as int));
    }
    let (transcript_path, k3) = match parse_string_at(v, k2) {
        Some(x) => x,
        None => {
            proof {
                assert(sp_session_tail(t, id@, timestamp@, audio_path@, duration_ms as int, jp - pos) is None);
            }
            return None;
        },
    };
    proof {
        lemma_sp_string_nonneg(v@.skip(k2 as int));
        lemma_seq_skip_of_skip(v@, pos as int, (k3 - pos) as int);
        assert(t.skip((k3 - pos) as int) == v@.skip(k3 as int));
    }
    let k4 = match parse_lit(v, k3, ",\"clipboard_copied\":") {
        Some(j) => j,
        None => {
            proof {
                assert(sp_session_tail(t, id@, timestamp@, audio_path@, duration_ms as int, jp - pos) is None);
            }
            return None;
        },
    };
    proof {
        assert(sp_lit(v@.skip(k3 as int), ",\"clipboard_copied\":"@) == Some((k4 - k3) as int));
        lemma_seq_skip_of_skip(v@, pos as int, (k4 - pos) as int);
        assert(t.skip((k4 - pos) as int) == v@.skip(k4 as int));
    }
    let (clipboard_copied, k5) = match parse_bool_at(v, k4) {
        Some(x) => x,
        None => {
            proof {
                assert(sp_session_tail(t, id@, timestamp@, audio_path@, duration_ms as int, jp - pos) is None);
            }
            return None;
        },
    };
    proof {
        lemma_sp_bool_nonneg(v@.skip(k4 as int));
        lemma_seq_skip_of_skip(v@, pos as int, (k5 - pos) as int);
        assert(t.skip((k5 - pos) as int) == v@.skip(k5 as int));
    }
    let k6 = match parse_lit(v, k5, ",\"transcription_time_ms\":") {
        Some(j) => j,
        None => {
            proof {
                assert(sp_session_tail(t, id@, timestamp@, audio_path@, duration_ms as int, jp - pos) is None);
            }
            return None;
        },
    };
    proof {
        assert(sp_lit(v@.skip(k5 as int), ",\"transcription_time_ms\":"@) == Some((k6 - k5) as int));
        lemma_seq_skip_of_skip(v@, pos as int, (k6 - pos) as int);
        assert(t.skip((k6 - pos) as int) == v@.skip(k6 as int));
    }
    let (transcription_time_ms, k7) = match parse_opt_u64_at(v, k6) {
        Some(x) => x,
        None => {
            proof {
                assert(sp_session_tail(t, id@, timestamp@, audio_path@, duration_ms as int, jp - pos) is None);
            }
            return None;
        },
    };
    proof {
        lemma_sp_opt_u64_nonneg(v@.skip(k6 as int));
        lemma_seq_skip_of_skip(v@, pos as int, (k7 - pos) as int);
        assert(t.skip((k7 - pos) as int) == v@.skip(k7 as int));
    }
    let k8 = match parse_lit(v, k7, ",\"model_path\":") {
        Some(j) => j,
        None => {
            proof {
                assert(sp_session_tail(t, id@, timestamp@, audio_path@, duration_ms as int, jp - pos) is None);
            }
            return None;
        },
    };
    proof {
        assert(sp_lit(v@.skip(k7 as int), ",\"model_path\":"@) == Some((k8 - k7) as int));
        lemma_seq_skip_of_skip(v@, pos as int, (k8 - pos) as int);
        assert(t.skip((k8 - pos) as int) == v@.skip(k8 as int));
    }
    let (model_path, k9) = match parse_opt_string_at(v, k8) {
        Some(x) => x,
        None => {
            proof {
                assert(sp_session_tail(t, id@, timestamp@, audio_path@, duration_ms as int, jp - pos) is None);
            }
            return None;
        },
    };
    proof {
        lemma_sp_opt_string_nonneg(v@.skip(k8 as int));
        lemma_seq_skip_of_skip(v@, pos as int, (k9 - pos) as int);
        assert(t.skip((k9 - pos) as int) == v@.skip(k9 as int));
    }
    let k10 = match parse_lit(v, k9, "}") {
        Some(j) => j,
        None => {
            proof {
                assert(sp_session_tail(t, id@, timestamp@, audio_path@, duration_ms as int, jp - pos) is None);
            }
            return None;
        },
    };
    proof {
        assert(sp_lit(v@.skip(k9 as int), "}"@) == Some((k10 - k9) as int));
        lemma_seq_skip_of_skip(v@, pos as int, (k10 - pos) as int);
        assert(t.skip((k10 - pos) as int) == v@.skip(k10 as int));
    }
    let session = Session {
        id: string_from_chars(id),
        timestamp: string_from_chars(timestamp),
        audio_path: string_from_chars(audio_path),
        duration_ms,
        preview: string_from_chars(&preview),
        transcript_path: string_from_chars(&transcript_path),
        clipboard_copied,
        transcription_time_ms,
        model_path: match &model_path {
            Some(m) => Some(string_from_chars(m)),
            None => None,
        },
    };
    proof {
        match sp_session_tail(t, id@, timestamp@, audio_path@, duration_ms as int, jp - pos) {
            Some(p) => {
                assert(session@ =~= p.0);
                assert(p.1 == k10 - pos);
            },
            None => {
                assert(false);
            },
        }
    }
    Some((session, k10))
}

/// Consume one session object at `pos`.
#[verifier::rlimit(100)]
#[verifier::spinoff_prover]
fn parse_session_at(v: &Vec<char>, pos: usize) -> (r: Option<(Session, usize)>)
    requires
        pos <= v@.len(),
    ensures
        match sp_session(v@.skip(pos as int)) {
            Some(p) => r matches Some(q) && q.0@ == p.0 && q.1 == pos + p.1 && q.1 <= v@.len(),
            None => r is None,
        },
{
    let ghost t = v@.skip(pos as int);
    let j0 = match parse_lit(v, pos, "{\"id\":") {
        Some(j) => j,
        None => {
            proof {
                assert(sp_session(t) is None);
            }
            return None;
        },
    };
    proof {
        assert(sp_lit(v@.skip(pos as int), "{\"id\":"@) == Some((j0 - pos) as int));
        lemma_seq_skip_of_skip(v@, pos as int, (j0 - pos) as int);
        assert(t.skip((j0 - pos) as int) == v@.skip(j0 as int));
    }
    let (id, j1) = match parse_string_at(v, j0) {
        Some(x) => x,
        None => {
            proof {
                assert(sp_session(t) is None);
            }
            return None;
        },
    };
    proof {
        lemma_sp_string_nonneg(v@.skip(j0 as int));
        lemma_seq_skip_of_skip(v@, pos as int, (j1 - pos) as int);
        assert(t.skip((j1 - pos) as int) == v@.skip(j1 as int));
    }
    let j2 = match parse_lit(v, j1, ",\"timestamp\":") {
        Some(j) => j,
        None => {
            proof {
                assert(sp_session(t) is None);
            }
            return None;
        },
    };
    proof {
        assert(sp_lit(v@.skip(j1 as int), ",\"timestamp\":"@) == Some((j2 - j1) as int));
        lemma_seq_skip_of_skip(v@, pos as int, (j2 - pos) as int);
        assert(t.skip((j2 - pos) as int) == v@.skip(j2 as int));
    }
    let (timestamp, j3) = match parse_string_at(v, j2) {
        Some(x) => x,
        None => {
            proof {
                assert(sp_session(t) is None);
            }
            return None;
        },
    };
    proof {
        lemma_sp_string_nonneg(v@.skip(j2 as int));
        lemma_seq_skip_of_skip(v@, pos as int, (j3 - pos) as int);
        assert(t.skip((j3 - pos) as int) == v@.skip(j3 as int));
    }
    let j4 = match parse_lit(v, j3, ",\"audio_path\":") {
        Some(j) => j,
        None => {
            proof {
                assert(sp_session(t) is None);
            }
            return None;
        },
    };
    proof {
        assert(sp_lit(v@.skip(j3 as int), ",\"audio_path\":"@) == Some((j4 - j3) as int));
        lemma_seq_skip_of_skip(v@, pos as int, (j4 - pos) as int);
        assert(t.skip((j4 - pos) as int) == v@.skip(j4 as int));
    }
    let (audio_path, j5) = match parse_string_at(v, j4) {
        Some(x) => x,
        None => {
            proof {
                assert(sp_session(t) is None);
            }
            return None;
        },
    };
    proof {
        lemma_sp_string_nonneg(v@.skip(j4 as int));
        lemma_seq_skip_of_skip(v@, pos as int, (j5 - pos) as int);
        assert(t.skip((j5 - pos) as int) == v@.skip(j5 as int));
    }
    let j6 = match parse_lit(v, j5, ",\"duration_ms\":") {
        Some(j) => j,
        None => {
            proof {
                assert(sp_session(t) is None);
            }
            return None;
        },
    };
    proof {
        assert(sp_lit(v@.skip(j5 as int), ",\"duration_ms\":"@) == Some((j6 - j5) as int));
        lemma_seq_skip_of_skip(v@, pos as int, (j6 - pos) as int);
        assert(t.skip((j6 - pos) as int) == v@.skip(j6 as int));
    }
    let (duration_ms, j7) = match parse_u64_at(v, j6) {
        Some(x) => x,
        None => {
            proof {
                assert(sp_session(t) is None);
            }
            return None;
        },
    };
    proof {
        lemma_sp_u64_nonneg(v@.skip(j6 as int));
        lemma_seq_skip_of_skip(v@, pos as int, (j7 - pos) as int);
        assert(t.skip((j7 - pos) as int) == v@.skip(j7 as int));
    }
    let r = parse_session_tail_at(
        v,
        j7,
        Ghost(t),
        Ghost(pos as int),
        &id,
        &timestamp,
        &audio_path,
        duration_ms,
    );
    proof {
        match sp_session(t) {
            Some(p) => {
                assert(sp_session_tail(
                    t,
                    id@,
                    timestamp@,
                    audio_path@,
                    duration_ms as int,
                    j7 - pos,
                ) == Some(p));
            },
            None => {
                assert(sp_session_tail(
                    t,
                    id@,
                    timestamp@,
                    audio_path@,
                    duration_ms as int,
                    j7 - pos,
                ) is None);
            },
        }
    }
    r
}

impl SessionIndex {
    /// Parse a ledger document, strictly: exactly the format `to_json`
    /// writes, with the whole input consumed.
    #[verifier::rlimit(100)]
    #[verifier::spinoff_prover]
    pub fn from_json(text: &str) -> (r: Option<SessionIndex>)
        ensures
            match sp_index(text@) {
                Some(ix) => r matches Some(out) && out@ == ix,
                None => r is None,
            },
    {
        proof {
            reveal_strlit("]}");
        }
        let v = to_char_vec(text);
        proof {
            assert(v@.skip(0) =~= v@);
        }
        let j0 = match parse_lit(&v, 0, "{\"sessions\":[") {
            Some(j) => j,
            None => {
                return None;
            },
        };
        let ghost rest0 = v@.skip(j0 as int);
        proof {
            assert(sp_lit(v@, "{\"sessions\":["@) == Some(j0 as int));
        }
        let is_empty_doc = v.len() - j0 == 2 && v[j0] == ']' && v[j0 + 1] == '}';
        proof {
            if is_empty_doc {
                assert(rest0[0] == v@[j0 as int]);
                assert(rest0[1] == v@[j0 + 1]);
                assert(rest0 =~= "]}"@);
            } else {
                if rest0 == "]}"@ {
                    assert(rest0.len() == 2);
                    assert(v@[j0 as int] == rest0[0]);
                    assert(v@[j0 + 1] == rest0[1]);
                    assert(false);
                }
            }
        }
        if is_empty_doc {
            return Some(SessionIndex::new());
        }
        let (first, j1) = match parse_session_at(&v, j0) {
            Some(x) => x,
            None => {
                proof {
                    assert(sp_session(rest0) is None);
                    assert(sp_sessions(rest0) is None);
                    assert(sp_index(text@) is None);
                }
                return None;
            },
        };
        if j1 <= j0 {
            proof {
                assert(sp_session(rest0) matches Some(p) && p.1 == (j1 - j0) as int);
                assert(sp_sessions(rest0) is None);
                assert(sp_index(text@) is None);
            }
            return None;
        }
        let mut sessions: Vec<Session> = Vec::new();
        let ghost first_view = first@;
        sessions.push(first);
        let mut j: usize = j1;
        proof {
            assert(sp_session(rest0) == Some((first_view, (j1 - j0) as int)));
            lemma_seq_skip_of_skip(v@, j0 as int, (j1 - j0) as int);
            assert(rest0.skip((j1 - j0) as int) == v@.skip(j1 as int));
            assert(sessions@.map_values(|s: Session| s@) =~= seq![first_view]);
            match sp_sessions_rest(v@.skip(j as int)) {
                Some(pp) => {
                    assert(seq![first_view] + pp.0 =~= sessions@.map_values(|s: Session| s@)
                        + pp.0);
                },
                None => {},
            }
        }
        while j < v.len() && v[j] == ','
            invariant
                j0 <= j <= v@.len(),
                v@.len() <= usize::MAX,
                text@ == v@,
                rest0 == v@.skip(j0 as int),
                sp_lit(v@, "{\"sessions\":["@) == Some(j0 as int),
                rest0 != "]}"@,
                sessions@.len() >= 1,
                match sp_sessions_rest(v@.skip(j as int)) {
                    Some(p) => sp_sessions(rest0) == Some(
                        (sessions@.map_values(|s: Session| s@) + p.0, (j - j0) + p.1),
                    ),
                    None => sp_sessions(rest0) is None,
                },
            decreases v@.len() - j,
        {
            proof {
                assert(v@.skip(j as int)[0] == v@[j as int]);
                lemma_seq_skip_of_skip(v@, j as int, 1);
            }
            let (snext, j2) = match parse_session_at(&v, j + 1) {
                Some(x) => x,
                None => {
                    proof {
                        assert(sp_session(v@.skip(j + 1)) is None);
                        assert(sp_sessions_rest(v@.skip(j as int)) is None);
                        assert(sp_sessions(rest0) is None);
                        assert(sp_index(text@) is None);
                    }
                    return None;
                },
            };
            if j2 <= j + 1 {
                proof {
                    assert(sp_session(v@.skip(j + 1)) matches Some(p) && p.1 == (j2 - (j
                        + 1)) as int);
                    assert(sp_sessions_rest(v@.skip(j as int)) is None);
                    assert(sp_sessions(rest0) is None);
                    assert(sp_index(text@) is None);
                }
                return None;
            }
            let ghost old_views = sessions@.map_values(|s: Session| s@);
            let ghost sv = snext@;
            proof {
                assert(sp_session(v@.skip(j + 1)) == Some((sv, (j2 - (j + 1)) as int)));
                lemma_seq_skip_of_skip(v@, (j + 1) as int, (j2 - (j + 1)) as int);
                assert(v@.skip(j + 1).skip((j2 - (j + 1)) as int) == v@.skip(j2 as int));
                lemma_seq_skip_of_skip(v@, j as int, (j2 - j) as int);
                assert(v@.skip(j as int).skip((j2 - j) as int) == v@.skip(j2 as int));
            }
            sessions.push(snext);
            proof {
                assert(sessions@.map_values(|s: Session| s@) =~= old_views.push(sv));
                match sp_sessions_rest(v@.skip(j2 as int)) {
                    Some(pp) => {
                        assert(sp_sessions_rest(v@.skip(j as int)) == Some(
                            (seq![sv] + pp.0, 1 + ((j2 - (j + 1)) as int) + pp.1),
                        ));
                        assert(old_views.push(sv) + pp.0 =~= old_views + (seq![sv] + pp.0));
                    },
                    None => {
                        assert(sp_sessions_rest(v@.skip(j as int)) is None);
                    },
                }
            }
            j = j2;
        }
        proof {
            if j < v@.len() {
                assert(v@.skip(j as int)[0] == v@[j as int]);
            }
            assert(sp_sessions_rest(v@.skip(j as int)) == Some((Seq::<SessionV>::empty(), 0int)));
            assert(sessions@.map_values(|s: Session| s@) + Seq::<SessionV>::empty()
                =~= sessions@.map_values(|s: Session| s@));
        }
        let doc_closed = v.len() - j == 2 && v[j] == ']' && v[j + 1] == '}';
        proof {
            lemma_seq_skip_of_skip(v@, j0 as int, (j - j0) as int);
            assert(rest0.skip((j - j0) as int) == v@.skip(j as int));
            if doc_closed {
                assert(v@.skip(j as int)[0] == v@[j as int]);
                assert(v@.skip(j as int)[1] == v@[j + 1]);
                assert(v@.skip(j as int) =~= "]}"@);
            } else {
                if v@.skip(j as int) == "]}"@ {
                    assert(v@.skip(j as int).len() == 2);
                    assert(v@[j as int] == "]}"@[0]);
                    assert(v@[j + 1] == "]}"@[1]);
                    assert(false);
                }
            }
        }
        if doc_closed {
            let r = SessionIndex { sessions };
            return Some(r);
        }
        None
    }
}

} // verus!
