//! The control channel's line grammar: an ASCII command line is split on
//! whitespace into tokens; the first token names the command
//! (case-insensitively), numeric arguments must be decimal floating-point
//! literals. A line that fits no command is silently ignored. The numeric
//! tokens are returned verbatim for the caller to evaluate.

use vstd::prelude::*;

verus! {

/// ASCII whitespace, the separators `split_whitespace` recognizes in an
/// ASCII stream: space, tab, line feed, vertical tab, form feed, carriage
/// return.
pub open spec fn is_ascii_ws(c: u8) -> bool {
    c == 0x20 || c == 0x09 || c == 0x0a || c == 0x0b || c == 0x0c || c == 0x0d
}

fn is_ws_byte(c: u8) -> (r: bool)
    ensures
        r == is_ascii_ws(c),
{
    c == 0x20 || c == 0x09 || c == 0x0a || c == 0x0b || c == 0x0c || c == 0x0d
}

/// An ASCII letter lowered; other bytes unchanged.
pub open spec fn lower_byte(c: u8) -> u8 {
    if 0x41 <= c <= 0x5a {
        (c + 0x20) as u8
    } else {
        c
    }
}

fn lower_byte_exec(c: u8) -> (r: u8)
    ensures
        r == lower_byte(c),
{
    if 0x41 <= c && c <= 0x5a {
        c + 0x20
    } else {
        c
    }
}

/// Length of the leading whitespace-free run.
pub open spec fn token_len(s: Seq<u8>) -> nat
    decreases s.len(),
{
    if s.len() == 0 || is_ascii_ws(s[0]) {
        0
    } else {
        1 + token_len(s.skip(1))
    }
}

/// The leading token is never longer than the input.
proof fn lemma_token_len_le(s: Seq<u8>)
    ensures
        token_len(s) <= s.len(),
    decreases s.len(),
{
    if s.len() > 0 && !is_ascii_ws(s[0]) {
        lemma_token_len_le(s.skip(1));
    }
}

/// The whitespace-separated tokens of `s`, in order.
pub open spec fn tokens_of(s: Seq<u8>) -> Seq<Seq<u8>>
    decreases s.len(),
    via tokens_of_decreases
{
    if s.len() == 0 {
        Seq::empty()
    } else if is_ascii_ws(s[0]) {
        tokens_of(s.skip(1))
    } else {
        seq![s.take(token_len(s) as int)] + tokens_of(s.skip(token_len(s) as int))
    }
}

#[via_fn]
proof fn tokens_of_decreases(s: Seq<u8>) {
    if s.len() > 0 && !is_ascii_ws(s[0]) {
        lemma_token_len_le(s);
        assert(token_len(s) >= 1);
    }
}

/// A run of `l` non-whitespace bytes ended by the input or by whitespace is
/// exactly the leading token.
proof fn lemma_token_len_characterize(s: Seq<u8>, l: int)
    requires
        0 <= l <= s.len(),
        forall|j: int| 0 <= j < l ==> !is_ascii_ws(s[j]),
        l < s.len() ==> is_ascii_ws(s[l]),
    ensures
        token_len(s) == l,
    decreases s.len(),
{
    if l == 0 {
    } else {
        lemma_token_len_characterize(s.skip(1), l - 1);
    }
}

fn clone_bytes(v: &Vec<u8>) -> (r: Vec<u8>)
    ensures
        r@ == v@,
{
    let mut out: Vec<u8> = Vec::new();
    let mut i: usize = 0;
    while i < v.len()
        invariant
            0 <= i <= v@.len(),
            out@.len() == i,
            forall|j: int| 0 <= j < i ==> out@[j] == v@[j],
        decreases v@.len() - i,
    {
        let b = v[i];
        out.push(b);
        i = i + 1;
    }
    proof {
        assert(out@ =~= v@);
    }
    out
}

/// Split a line into its whitespace-separated tokens.
#[verifier::loop_isolation(false)]
pub fn tokenize(line: &[u8]) -> (tokens: Vec<Vec<u8>>)
    ensures
        tokens.deep_view() == tokens_of(line@),
        tokens@.len() == tokens_of(line@).len(),
        forall|i: int| 0 <= i < tokens@.len() ==> (#[trigger] tokens@[i])@ == tokens_of(line@)[i],
{
    let n = line.len();
    let mut tokens: Vec<Vec<u8>> = Vec::new();
    let mut pos: usize = 0;
    proof {
        assert(line@.skip(0) =~= line@);
        assert(tokens.deep_view() =~= Seq::<Seq<u8>>::empty());
        assert(Seq::<Seq<u8>>::empty() + tokens_of(line@) =~= tokens_of(line@));
    }
    while pos < n
        invariant
            0 <= pos <= n,
            n == line@.len(),
            tokens.deep_view() + tokens_of(line@.skip(pos as int)) == tokens_of(line@),
        decreases n - pos,
    {
        if is_ws_byte(line[pos]) {
            proof {
                assert(line@.skip(pos as int).skip(1) =~= line@.skip(pos as int + 1));
                assert(tokens_of(line@.skip(pos as int)) == tokens_of(line@.skip(pos as int + 1)));
            }
            pos = pos + 1;
        } else {
            let st = pos;
            let mut tok: Vec<u8> = Vec::new();
            while pos < n && !is_ws_byte(line[pos])
                invariant
                    st <= pos <= n,
                    tok@.len() == pos - st,
                    forall|j: int| st <= j < pos ==> !is_ascii_ws(line@[j]),
                    forall|j: int| 0 <= j < pos - st ==> tok@[j] == line@[st + j],
                decreases n - pos,
            {
                let b = line[pos];
                tok.push(b);
                pos = pos + 1;
            }
            let ghost old_deep = tokens.deep_view();
            let ghost rest_st = line@.skip(st as int);
            let ghost l = pos - st;
            proof {
                assert forall|j: int| 0 <= j < l implies !is_ascii_ws(rest_st[j]) by {
                    assert(rest_st[j] == line@[st + j]);
                }
                if l < rest_st.len() {
                    assert(rest_st[l as int] == line@[pos as int]);
                }
                lemma_token_len_characterize(rest_st, l as int);
                assert(rest_st.take(l as int) =~= tok@);
                assert(rest_st.skip(l as int) =~= line@.skip(pos as int));
                assert(tokens_of(rest_st) == seq![tok@] + tokens_of(line@.skip(pos as int)));
            }
            let ghost tok_view = tok@;
            tokens.push(tok);
            proof {
                assert(tokens.deep_view() =~~= old_deep.push(tok_view));
                assert(old_deep.push(tok_view) + tokens_of(line@.skip(pos as int)) =~~= old_deep
                    + tokens_of(rest_st));
            }
        }
    }
    proof {
        assert(tokens_of(line@.skip(n as int)) =~= Seq::<Seq<u8>>::empty());
        assert(tokens.deep_view() + Seq::<Seq<u8>>::empty() =~= tokens.deep_view());
        assert forall|i: int| 0 <= i < tokens@.len() implies (#[trigger] tokens@[i])@
            == tokens_of(line@)[i] by {
            assert(tokens.deep_view()[i] =~= tokens@[i]@);
        }
    }
    tokens
}

/// A decimal digit.
pub open spec fn is_digit(c: u8) -> bool {
    0x30 <= c <= 0x39
}

/// An exponent marker (`e` or `E`).
pub open spec fn is_exp_char(c: u8) -> bool {
    c == 0x65 || c == 0x45
}

/// A leading sign (`+` or `-`).
pub open spec fn is_sign(c: u8) -> bool {
    c == 0x2b || c == 0x2d
}

/// Index of the first exponent marker at or after `a`, or the length when
/// there is none.
pub open spec fn first_exp_from(t: Seq<u8>, a: int) -> int
    decreases t.len() - a,
{
    if a < 0 || a >= t.len() {
        t.len() as int
    } else if is_exp_char(t[a]) {
        a
    } else {
        first_exp_from(t, a + 1)
    }
}

proof fn lemma_first_exp_characterize(t: Seq<u8>, a: int, r: int)
    requires
        0 <= a <= r <= t.len(),
        forall|j: int| a <= j < r ==> !is_exp_char(t[j]),
        r < t.len() ==> is_exp_char(t[r]),
    ensures
        first_exp_from(t, a) == r,
    decreases t.len() - a,
{
    if a < t.len() && !is_exp_char(t[a]) {
        lemma_first_exp_characterize(t, a + 1, r);
    }
}

/// A mantissa over `[a, b)`: digits with at most one decimal point, and at
/// least one digit (which, given at most one point, means at least two
/// characters, or a single character that is a digit).
pub open spec fn mantissa_ok(t: Seq<u8>, a: int, b: int) -> bool {
    &&& forall|i: int| a <= i < b ==> is_digit(#[trigger] t[i]) || t[i] == 0x2eu8
    &&& forall|i: int, j: int|
        a <= i < j < b ==> !(#[trigger] t[i] == 0x2eu8 && #[trigger] t[j] == 0x2eu8)
    &&& (b - a >= 2 || (b - a == 1 && is_digit(t[a])))
}

/// An exponent over `[a, b)`: an optional sign, then at least one digit.
pub open spec fn exp_ok(t: Seq<u8>, a: int, b: int) -> bool {
    let a2 = if a < b && is_sign(t[a]) {
        a + 1
    } else {
        a
    };
    b - a2 >= 1 && forall|i: int| a2 <= i < b ==> is_digit(#[trigger] t[i])
}

/// The case-insensitive special values `inf`, `infinity` and `nan`,
/// occupying the whole remainder.
pub open spec fn special_ok(t: Seq<u8>, a: int) -> bool {
    let n = t.len() as int;
    ||| (n - a == 3 && lower_byte(t[a]) == 0x69 && lower_byte(t[a + 1]) == 0x6e && lower_byte(
        t[a + 2],
    ) == 0x66)
    ||| (n - a == 8 && lower_byte(t[a]) == 0x69 && lower_byte(t[a + 1]) == 0x6e && lower_byte(
        t[a + 2],
    ) == 0x66 && lower_byte(t[a + 3]) == 0x69 && lower_byte(t[a + 4]) == 0x6e && lower_byte(
        t[a + 5],
    ) == 0x69 && lower_byte(t[a + 6]) == 0x74 && lower_byte(t[a + 7]) == 0x79)
    ||| (n - a == 3 && lower_byte(t[a]) == 0x6e && lower_byte(t[a + 1]) == 0x61 && lower_byte(
        t[a + 2],
    ) == 0x6e)
}

/// A decimal floating-point literal as `str::parse::<f64>` accepts it: an
/// optional sign, then either a special value or a mantissa with an
/// optional exponent.
pub open spec fn is_float_token_spec(t: Seq<u8>) -> bool {
    let a: int = if t.len() > 0 && is_sign(t[0]) {
        1
    } else {
        0
    };
    let e = first_exp_from(t, a);
    ||| special_ok(t, a)
    ||| (mantissa_ok(t, a, e) && (e == t.len() || exp_ok(t, e + 1, t.len() as int)))
}

/// Check one token against the floating-point literal grammar.
#[verifier::loop_isolation(false)]
pub fn is_float_token(t: &[u8]) -> (r: bool)
    ensures
        r == is_float_token_spec(t@),
{
    let n = t.len();
    let a: usize = if n > 0 && (t[0] == 0x2b || t[0] == 0x2d) {
        1
    } else {
        0
    };

    // Special values first; they contain no exponent marker.
    if n - a == 3 {
        let c0 = lower_byte_exec(t[a]);
        let c1 = lower_byte_exec(t[a + 1]);
        let c2 = lower_byte_exec(t[a + 2]);
        if (c0 == 0x69 && c1 == 0x6e && c2 == 0x66) || (c0 == 0x6e && c1 == 0x61 && c2 == 0x6e) {
            return true;
        }
    }
    if n - a == 8 {
        let c0 = lower_byte_exec(t[a]);
        let c1 = lower_byte_exec(t[a + 1]);
        let c2 = lower_byte_exec(t[a + 2]);
        let c3 = lower_byte_exec(t[a + 3]);
        let c4 = lower_byte_exec(t[a + 4]);
        let c5 = lower_byte_exec(t[a + 5]);
        let c6 = lower_byte_exec(t[a + 6]);
        let c7 = lower_byte_exec(t[a + 7]);
        if c0 == 0x69 && c1 == 0x6e && c2 == 0x66 && c3 == 0x69 && c4 == 0x6e && c5 == 0x69 && c6
            == 0x74 && c7 == 0x79 {
            return true;
        }
    }

    // Find the first exponent marker.
    let mut e: usize = a;
    while e < n && !(t[e] == 0x65 || t[e] == 0x45)
        invariant
            a <= e <= n,
            forall|j: int| a <= j < e ==> !is_exp_char(t@[j]),
        decreases n - e,
    {
        e = e + 1;
    }
    proof {
        lemma_first_exp_characterize(t@, a as int, e as int);
    }

    // Mantissa over [a, e): digits with at most one decimal point.
    let mut i: usize = a;
    let mut dot_seen = false;
    let ghost mut dot_pos: int = -1;
    while i < e
        invariant
            a <= i <= e <= n,
            forall|j: int| a <= j < i ==> is_digit(#[trigger] t@[j]) || t@[j] == 0x2eu8,
            !dot_seen ==> forall|j: int| a <= j < i ==> t@[j] != 0x2eu8,
            dot_seen ==> a <= dot_pos < i && t@[dot_pos] == 0x2eu8 && (forall|j: int|
                a <= j < i && j != dot_pos ==> t@[j] != 0x2eu8),
        decreases e - i,
    {
        let c = t[i];
        if 0x30 <= c && c <= 0x39 {
        } else if c == 0x2e {
            if dot_seen {
                // Two decimal points: no mantissa decomposition exists.
                return false;
            }
            dot_seen = true;
            proof {
                dot_pos = i as int;
            }
        } else {
            return false;
        }
        i = i + 1;
    }
    if !(e - a >= 2 || (e - a == 1 && 0x30 <= t[a] && t[a] <= 0x39)) {
        return false;
    }

    if e == n {
        return true;
    }

    // Exponent over [e + 1, n): optional sign, then at least one digit.
    let mut k: usize = e + 1;
    if k < n && (t[k] == 0x2b || t[k] == 0x2d) {
        k = k + 1;
    }
    if k >= n {
        return false;
    }
    let ghost a2 = k as int;
    while k < n
        invariant
            a2 <= k <= n,
            forall|j: int| a2 <= j < k ==> is_digit(#[trigger] t@[j]),
        decreases n - k,
    {
        let c = t[k];
        if !(0x30 <= c && c <= 0x39) {
            return false;
        }
        k = k + 1;
    }
    true
}

/// Keyword `seek`, compared ignoring ASCII case.
pub open spec fn is_kw_seek(t: Seq<u8>) -> bool {
    t.len() == 4 && lower_byte(t[0]) == 0x73 && lower_byte(t[1]) == 0x65 && lower_byte(t[2])
        == 0x65 && lower_byte(t[3]) == 0x6b
}

/// Keyword `pause`, compared ignoring ASCII case.
pub open spec fn is_kw_pause(t: Seq<u8>) -> bool {
    t.len() == 5 && lower_byte(t[0]) == 0x70 && lower_byte(t[1]) == 0x61 && lower_byte(t[2])
        == 0x75 && lower_byte(t[3]) == 0x73 && lower_byte(t[4]) == 0x65
}

/// Keyword `resume`, compared ignoring ASCII case.
pub open spec fn is_kw_resume(t: Seq<u8>) -> bool {
    t.len() == 6 && lower_byte(t[0]) == 0x72 && lower_byte(t[1]) == 0x65 && lower_byte(t[2])
        == 0x73 && lower_byte(t[3]) == 0x75 && lower_byte(t[4]) == 0x6d && lower_byte(t[5]) == 0x65
}

/// Keyword `stop`, compared ignoring ASCII case.
pub open spec fn is_kw_stop(t: Seq<u8>) -> bool {
    t.len() == 4 && lower_byte(t[0]) == 0x73 && lower_byte(t[1]) == 0x74 && lower_byte(t[2])
        == 0x6f && lower_byte(t[3]) == 0x70
}

/// Keyword `beat`, compared ignoring ASCII case.
pub open spec fn is_kw_beat(t: Seq<u8>) -> bool {
    t.len() == 4 && lower_byte(t[0]) == 0x62 && lower_byte(t[1]) == 0x65 && lower_byte(t[2])
        == 0x61 && lower_byte(t[3]) == 0x74
}

fn kw_seek(t: &Vec<u8>) -> (r: bool)
    ensures
        r == is_kw_seek(t@),
{
    t.len() == 4 && lower_byte_exec(t[0]) == 0x73 && lower_byte_exec(t[1]) == 0x65
        && lower_byte_exec(t[2]) == 0x65 && lower_byte_exec(t[3]) == 0x6b
}

fn kw_pause(t: &Vec<u8>) -> (r: bool)
    ensures
        r == is_kw_pause(t@),
{
    t.len() == 5 && lower_byte_exec(t[0]) == 0x70 && lower_byte_exec(t[1]) == 0x61
        && lower_byte_exec(t[2]) == 0x75 && lower_byte_exec(t[3]) == 0x73 && lower_byte_exec(t[4])
        == 0x65
}

fn kw_resume(t: &Vec<u8>) -> (r: bool)
    ensures
        r == is_kw_resume(t@),
{
    t.len() == 6 && lower_byte_exec(t[0]) == 0x72 && lower_byte_exec(t[1]) == 0x65
        && lower_byte_exec(t[2]) == 0x73 && lower_byte_exec(t[3]) == 0x75 && lower_byte_exec(t[4])
        == 0x6d && lower_byte_exec(t[5]) == 0x65
}

fn kw_stop(t: &Vec<u8>) -> (r: bool)
    ensures
        r == is_kw_stop(t@),
{
    t.len() == 4 && lower_byte_exec(t[0]) == 0x73 && lower_byte_exec(t[1]) == 0x74
        && lower_byte_exec(t[2]) == 0x6f && lower_byte_exec(t[3]) == 0x70
}

fn kw_beat(t: &Vec<u8>) -> (r: bool)
    ensures
        r == is_kw_beat(t@),
{
    t.len() == 4 && lower_byte_exec(t[0]) == 0x62 && lower_byte_exec(t[1]) == 0x65
        && lower_byte_exec(t[2]) == 0x61 && lower_byte_exec(t[3]) == 0x74
}

/// A recognized command line. Numeric arguments are carried as the
/// original token bytes, already checked against the floating-point
/// grammar; the caller evaluates them.
#[derive(Debug, PartialEq, Eq)]
pub enum Command {
    /// `SEEK <seconds>`: set the pending seek target.
    Seek { seconds: Vec<u8> },
    /// `PAUSE`: set the pause flag.
    Pause,
    /// `RESUME`: clear the pause flag.
    Resume,
    /// `STOP`: set the shutdown flag; the engine blanks and exits.
    Stop,
    /// `BEAT <position> [<epoch>]`: a heartbeat, stored and then discarded
    /// each tick; it never drives timing.
    Beat { position: Vec<u8>, epoch: Option<Vec<u8>> },
}

/// A well-formed `SEEK` line.
pub open spec fn seek_shape(toks: Seq<Seq<u8>>) -> bool {
    toks.len() == 2 && is_kw_seek(toks[0]) && is_float_token_spec(toks[1])
}

/// A well-formed `PAUSE` line.
pub open spec fn pause_shape(toks: Seq<Seq<u8>>) -> bool {
    toks.len() == 1 && is_kw_pause(toks[0])
}

/// A well-formed `RESUME` line.
pub open spec fn resume_shape(toks: Seq<Seq<u8>>) -> bool {
    toks.len() == 1 && is_kw_resume(toks[0])
}

/// A well-formed `STOP` line.
pub open spec fn stop_shape(toks: Seq<Seq<u8>>) -> bool {
    toks.len() == 1 && is_kw_stop(toks[0])
}

/// A well-formed `BEAT` line: the position must parse; a malformed epoch
/// token is dropped, not an error.
pub open spec fn beat_shape(toks: Seq<Seq<u8>>) -> bool {
    (toks.len() == 2 || toks.len() == 3) && is_kw_beat(toks[0]) && is_float_token_spec(toks[1])
}

/// Parse one control line. Exactly the five command shapes produce a
/// command; every other line — wrong keyword, wrong arity, malformed
/// number, empty — is ignored.
pub fn parse_command(line: &[u8]) -> (r: Option<Command>)
    ensures
        ({
            let toks = tokens_of(line@);
            &&& seek_shape(toks) ==> ({
                &&& r matches Some(c)
                &&& c matches Command::Seek { seconds }
                &&& seconds@ == toks[1]
            })
            &&& (pause_shape(toks) ==> r == Some(Command::Pause))
            &&& (resume_shape(toks) ==> r == Some(Command::Resume))
            &&& (stop_shape(toks) ==> r == Some(Command::Stop))
            &&& beat_shape(toks) ==> ({
                &&& r matches Some(c)
                &&& c matches Command::Beat { position, epoch }
                &&& position@ == toks[1]
                &&& if toks.len() == 3 && is_float_token_spec(toks[2]) {
                    epoch matches Some(ep) && ep@ == toks[2]
                } else {
                    epoch is None
                }
            })
            &&& (!seek_shape(toks) && !pause_shape(toks) && !resume_shape(toks) && !stop_shape(
                toks,
            ) && !beat_shape(toks) ==> r is None)
        }),
{
    let tokens = tokenize(line);
    proof {
        assert(tokens.deep_view().len() == tokens@.len());
    }
    if tokens.len() == 2 && kw_seek(&tokens[0]) {
        if is_float_token(tokens[1].as_slice()) {
            return Some(Command::Seek { seconds: clone_bytes(&tokens[1]) });
        }
        return None;
    }
    if tokens.len() == 1 && kw_pause(&tokens[0]) {
        return Some(Command::Pause);
    }
    if tokens.len() == 1 && kw_resume(&tokens[0]) {
        return Some(Command::Resume);
    }
    if (tokens.len() == 2 || tokens.len() == 3) && kw_beat(&tokens[0]) {
        if is_float_token(tokens[1].as_slice()) {
            let epoch = if tokens.len() == 3 && is_float_token(tokens[2].as_slice()) {
                Some(clone_bytes(&tokens[2]))
            } else {
                None
            };
            return Some(Command::Beat { position: clone_bytes(&tokens[1]), epoch });
        }
        return None;
    }
    if tokens.len() == 1 && kw_stop(&tokens[0]) {
        return Some(Command::Stop);
    }
    None
}

} // verus!
