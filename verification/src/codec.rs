//! The playlist's on-disk form: a single text record holding the cursor
//! and the ordered stream list, and nothing else — the id counter is
//! recomputed on load as the largest id present.
//!
//! The record is `<current>;<count>;` followed by one
//! `<id>,<len>:<name>,<len>:<url>;` group per stream, every number in
//! decimal and every string length-prefixed by its character count, so no
//! character of a name or URL needs escaping.
//!
//! `spec_enc_cfg` is the format's definition; `parse_cfg` reads it back,
//! and `lemma_config_round_trip` proves that reading what was written
//! reproduces the cursor and the streams exactly.

use vstd::prelude::*;

use crate::player::{CfgView, Player, PlayerCfg, Stream, StreamView};

verus! {

/// Numeric value of a digit character, or -1 for any other character.
pub open spec fn digit_val(c: char) -> int {
    if c == '0' {
        0
    } else if c == '1' {
        1
    } else if c == '2' {
        2
    } else if c == '3' {
        3
    } else if c == '4' {
        4
    } else if c == '5' {
        5
    } else if c == '6' {
        6
    } else if c == '7' {
        7
    } else if c == '8' {
        8
    } else if c == '9' {
        9
    } else {
        -1
    }
}

/// Whether a character is a decimal digit.
pub open spec fn is_digit(c: char) -> bool {
    digit_val(c) >= 0
}

/// The digit character for a value below ten.
pub open spec fn digit_char(d: nat) -> char {
    if d == 0 {
        '0'
    } else if d == 1 {
        '1'
    } else if d == 2 {
        '2'
    } else if d == 3 {
        '3'
    } else if d == 4 {
        '4'
    } else if d == 5 {
        '5'
    } else if d == 6 {
        '6'
    } else if d == 7 {
        '7'
    } else if d == 8 {
        '8'
    } else {
        '9'
    }
}

/// Decimal digits of a number, most significant first, without leading
/// zeros (a single `0` for zero).
pub open spec fn spec_dec(n: nat) -> Seq<char>
    decreases n,
{
    if n < 10 {
        seq![digit_char(n)]
    } else {
        spec_dec(n / 10).push(digit_char(n % 10))
    }
}

/// A string's encoding: its character count in decimal, a colon, then the
/// characters themselves.
pub open spec fn spec_enc_str(t: Seq<char>) -> Seq<char> {
    spec_dec(t.len()) + seq![':'] + t
}

/// One stream's encoding: id, name and URL, comma-separated and closed by
/// a semicolon.
pub open spec fn spec_enc_stream(sv: StreamView) -> Seq<char> {
    spec_dec(sv.id) + seq![','] + spec_enc_str(sv.name) + seq![','] + spec_enc_str(sv.url)
        + seq![';']
}

/// The streams' encodings, in playlist order.
pub open spec fn spec_enc_streams(svs: Seq<StreamView>) -> Seq<char>
    decreases svs.len(),
{
    if svs.len() == 0 {
        Seq::empty()
    } else {
        spec_enc_stream(svs[0]) + spec_enc_streams(svs.drop_first())
    }
}

/// The whole record: cursor, stream count, then the streams.
pub open spec fn spec_enc_cfg(v: CfgView) -> Seq<char> {
    spec_dec(v.current) + seq![';'] + spec_dec(v.streams.len()) + seq![';'] + spec_enc_streams(
        v.streams,
    )
}

/// Consume a maximal run of digits from position `i`, folding them onto
/// `acc`; yields the value and the position after the run.
pub open spec fn parse_digits(s: Seq<char>, i: int, acc: nat) -> (nat, int)
    decreases s.len() - i,
{
    if 0 <= i < s.len() && is_digit(s[i]) {
        parse_digits(s, i + 1, acc * 10 + digit_val(s[i]) as nat)
    } else {
        (acc, i)
    }
}

/// Read a decimal number at position `i`: at least one digit, then the
/// maximal digit run.
pub open spec fn parse_nat(s: Seq<char>, i: int) -> Option<(nat, int)> {
    if 0 <= i < s.len() && is_digit(s[i]) {
        Some(parse_digits(s, i, 0))
    } else {
        None
    }
}

/// Read one expected character at position `i`.
pub open spec fn parse_lit(s: Seq<char>, i: int, c: char) -> Option<int> {
    if 0 <= i < s.len() && s[i] == c {
        Some(i + 1)
    } else {
        None
    }
}

/// Read a length-prefixed string at position `i`.
pub open spec fn parse_str(s: Seq<char>, i: int) -> Option<(Seq<char>, int)> {
    match parse_nat(s, i) {
        Some((len, j)) => match parse_lit(s, j, ':') {
            Some(k) => if k + len <= s.len() {
                Some((s.subrange(k, k + len), k + len))
            } else {
                None
            },
            None => None,
        },
        None => None,
    }
}

/// Read one stream group at position `i`.
pub open spec fn parse_stream(s: Seq<char>, i: int) -> Option<(StreamView, int)> {
    match parse_nat(s, i) {
        Some((id, j)) => match parse_lit(s, j, ',') {
            Some(j1) => match parse_str(s, j1) {
                Some((name, j2)) => match parse_lit(s, j2, ',') {
                    Some(j3) => match parse_str(s, j3) {
                        Some((url, j4)) => match parse_lit(s, j4, ';') {
                            Some(j5) => Some((StreamView { id, name, url }, j5)),
                            None => None,
                        },
                        None => None,
                    },
                    None => None,
                },
                None => None,
            },
            None => None,
        },
        None => None,
    }
}

/// Read exactly `n` stream groups starting at position `i`.
pub open spec fn parse_streams(s: Seq<char>, i: int, n: nat) -> Option<(Seq<StreamView>, int)>
    decreases n,
{
    if n == 0 {
        Some((Seq::empty(), i))
    } else {
        match parse_stream(s, i) {
            Some((sv, j)) => match parse_streams(s, j, (n - 1) as nat) {
                Some((svs, k)) => Some((seq![sv] + svs, k)),
                None => None,
            },
            None => None,
        }
    }
}

/// Read a whole record: cursor, count, that many streams, nothing after.
pub open spec fn parse_cfg(s: Seq<char>) -> Option<(nat, Seq<StreamView>)> {
    match parse_nat(s, 0) {
        Some((cur, i)) => match parse_lit(s, i, ';') {
            Some(j) => match parse_nat(s, j) {
                Some((n, k)) => match parse_lit(s, k, ';') {
                    Some(m) => match parse_streams(s, m, n) {
                        Some((svs, e)) => if e == s.len() {
                            Some((cur, svs))
                        } else {
                            None
                        },
                        None => None,
                    },
                    None => None,
                },
                None => None,
            },
            None => None,
        },
        None => None,
    }
}

/// Append one digit character.
fn push_digit(out: &mut String, d: usize)
    requires
        d < 10,
    ensures
        final(out)@ == old(out)@.push(digit_char(d as nat)),
{
    proof {
        reveal_strlit("0");
        reveal_strlit("1");
        reveal_strlit("2");
        reveal_strlit("3");
        reveal_strlit("4");
        reveal_strlit("5");
        reveal_strlit("6");
        reveal_strlit("7");
        reveal_strlit("8");
        reveal_strlit("9");
    }
    match d {
        0 => out.append("0"),
        1 => out.append("1"),
        2 => out.append("2"),
        3 => out.append("3"),
        4 => out.append("4"),
        5 => out.append("5"),
        6 => out.append("6"),
        7 => out.append("7"),
        8 => out.append("8"),
        _ => out.append("9"),
    }
    proof {
        assert(final(out)@ =~= old(out)@.push(digit_char(d as nat)));
    }
}

/// Append a number in decimal.
fn push_dec(out: &mut String, n: usize)
    ensures
        final(out)@ == old(out)@ + spec_dec(n as nat),
    decreases n,
{
    if n >= 10 {
        push_dec(out, n / 10);
        push_digit(out, n % 10);
        proof {
            assert(final(out)@ =~= old(out)@ + spec_dec(n as nat));
        }
    } else {
        push_digit(out, n);
        proof {
            assert(final(out)@ =~= old(out)@ + spec_dec(n as nat));
        }
    }
}

/// Append a string's encoding: character count, colon, characters.
fn push_enc_str(out: &mut String, t: &str)
    ensures
        final(out)@ == old(out)@ + spec_enc_str(t@),
{
    proof {
        reveal_strlit(":");
    }
    let l = t.unicode_len();
    push_dec(out, l);
    out.append(":");
    out.append(t);
    proof {
        assert(final(out)@ =~= old(out)@ + spec_enc_str(t@));
    }
}

/// Append one stream's encoding.
fn push_enc_stream(out: &mut String, st: &Stream)
    ensures
        final(out)@ == old(out)@ + spec_enc_stream(st@),
{
    proof {
        reveal_strlit(",");
        reveal_strlit(";");
    }
    push_dec(out, st.id);
    out.append(",");
    push_enc_str(out, st.name.as_str());
    out.append(",");
    push_enc_str(out, st.url.as_str());
    out.append(";");
    proof {
        assert(final(out)@ =~= old(out)@ + spec_enc_stream(st@));
    }
}

/// Encoding one more stream extends the streams' encoding at the end.
proof fn lemma_enc_streams_push(svs: Seq<StreamView>, sv: StreamView)
    ensures
        spec_enc_streams(svs.push(sv)) == spec_enc_streams(svs) + spec_enc_stream(sv),
    decreases svs.len(),
{
    if svs.len() == 0 {
        assert(svs.push(sv)[0] == sv);
        assert(svs.push(sv).drop_first() =~= Seq::<StreamView>::empty());
        assert(spec_enc_streams(Seq::<StreamView>::empty()) == Seq::<char>::empty());
        assert(spec_enc_streams(svs.push(sv)) == spec_enc_stream(sv) + spec_enc_streams(
            svs.push(sv).drop_first(),
        ));
        assert(spec_enc_streams(svs.push(sv)) =~= spec_enc_streams(svs) + spec_enc_stream(sv));
    } else {
        assert(svs.push(sv).drop_first() =~= svs.drop_first().push(sv));
        lemma_enc_streams_push(svs.drop_first(), sv);
        assert(svs.push(sv)[0] == svs[0]);
        assert(spec_enc_streams(svs.push(sv)) == spec_enc_stream(svs[0]) + spec_enc_streams(
            svs.drop_first().push(sv),
        ));
        assert(spec_enc_streams(svs.push(sv)) == spec_enc_stream(svs[0]) + (spec_enc_streams(
            svs.drop_first(),
        ) + spec_enc_stream(sv)));
        assert(spec_enc_streams(svs) == spec_enc_stream(svs[0]) + spec_enc_streams(
            svs.drop_first(),
        ));
        assert(spec_enc_streams(svs.push(sv)) =~= spec_enc_streams(svs) + spec_enc_stream(sv));
    }
}

/// Powers of ten.
pub open spec fn pow10(k: nat) -> nat
    decreases k,
{
    if k == 0 {
        1
    } else {
        10 * pow10((k - 1) as nat)
    }
}

/// Value of a digit string, most significant digit first.
pub open spec fn val_of(ds: Seq<char>) -> nat
    decreases ds.len(),
{
    if ds.len() == 0 {
        0
    } else {
        val_of(ds.drop_last()) * 10 + digit_val(ds.last()) as nat
    }
}

/// A number's decimal form is non-empty and all digits.
proof fn lemma_dec_digits(n: nat)
    ensures
        spec_dec(n).len() >= 1,
        forall|k: int| 0 <= k < spec_dec(n).len() ==> is_digit(#[trigger] spec_dec(n)[k]),
    decreases n,
{
    if n < 10 {
        assert(is_digit(digit_char(n)));
    } else {
        lemma_dec_digits(n / 10);
        assert(is_digit(digit_char(n % 10)));
        assert(forall|k: int|
            0 <= k < spec_dec(n / 10).len() ==> #[trigger] spec_dec(n)[k] == spec_dec(n / 10)[k]);
    }
}

/// Reading a number's decimal form back gives the number.
proof fn lemma_val_of_dec(n: nat)
    ensures
        val_of(spec_dec(n)) == n,
    decreases n,
{
    if n < 10 {
        let ds = spec_dec(n);
        assert(ds.drop_last() =~= Seq::<char>::empty());
        assert(val_of(Seq::<char>::empty()) == 0);
        assert(ds.last() == digit_char(n));
        assert(digit_val(digit_char(n)) == n);
    } else {
        lemma_val_of_dec(n / 10);
        let ds = spec_dec(n);
        assert(ds.drop_last() =~= spec_dec(n / 10));
        assert(ds.last() == digit_char(n % 10));
        assert(digit_val(digit_char(n % 10)) == n % 10);
        assert(val_of(ds) == (n / 10) * 10 + n % 10);
        assert(n == 10 * (n / 10) + n % 10) by {
            vstd::arithmetic::div_mod::lemma_fundamental_div_mod(n as int, 10);
        }
    }
}

/// A digit string's value, peeled from the front: the leading digit
/// weighs ten to the remaining length.
proof fn lemma_val_front(ds: Seq<char>)
    requires
        ds.len() >= 1,
        forall|k: int| 0 <= k < ds.len() ==> is_digit(#[trigger] ds[k]),
    ensures
        val_of(ds) == digit_val(ds[0]) * pow10((ds.len() - 1) as nat) + val_of(ds.drop_first()),
    decreases ds.len(),
{
    if ds.len() == 1 {
        assert(ds.drop_last() =~= Seq::<char>::empty());
        assert(ds.drop_first() =~= Seq::<char>::empty());
        assert(ds.last() == ds[0]);
        assert(pow10(0) == 1);
    } else {
        let t = ds.drop_last();
        assert(forall|k: int| 0 <= k < t.len() ==> #[trigger] t[k] == ds[k]);
        lemma_val_front(t);
        let u = ds.drop_first();
        assert(u.drop_last() =~= t.drop_first());
        assert(u.last() == ds.last());
        assert(u.len() >= 1);
        assert(val_of(u) == val_of(t.drop_first()) * 10 + digit_val(ds.last()) as nat);
        let k = (ds.len() - 2) as nat;
        assert(pow10((ds.len() - 1) as nat) == 10 * pow10(k));
        let d0 = digit_val(ds[0]);
        assert(t[0] == ds[0]);
        assert(val_of(t) == d0 * pow10(k) + val_of(t.drop_first()));
        assert(val_of(ds) == val_of(t) * 10 + digit_val(ds.last()) as nat);
        assert((d0 * pow10(k) + val_of(t.drop_first())) * 10 == d0 * (10 * pow10(k)) + val_of(
            t.drop_first(),
        ) * 10) by (nonlinear_arith);
    }
}

/// A digit run's value never falls below the accumulator it started from,
/// and the run stays within the text.
proof fn lemma_parse_digits_bounds(s: Seq<char>, i: int, acc: nat)
    ensures
        parse_digits(s, i, acc).0 >= acc,
        parse_digits(s, i, acc).1 >= i,
        0 <= i <= s.len() ==> parse_digits(s, i, acc).1 <= s.len(),
    decreases s.len() - i,
{
    if 0 <= i < s.len() && is_digit(s[i]) {
        lemma_parse_digits_bounds(s, i + 1, acc * 10 + digit_val(s[i]) as nat);
    }
}

/// Parsing a maximal digit run that spans exactly `[i, j)` folds its
/// value onto the accumulator at the run's weight.
proof fn lemma_parse_digits_enc(s: Seq<char>, i: int, j: int, acc: nat)
    requires
        0 <= i <= j <= s.len(),
        forall|k: int| i <= k < j ==> is_digit(#[trigger] s[k]),
        j == s.len() || !is_digit(s[j]),
    ensures
        parse_digits(s, i, acc) == (acc * pow10((j - i) as nat) + val_of(s.subrange(i, j)), j),
    decreases j - i,
{
    if i == j {
        assert(s.subrange(i, j) =~= Seq::<char>::empty());
        assert(val_of(Seq::<char>::empty()) == 0);
        assert(pow10(0) == 1);
        assert(parse_digits(s, i, acc) == (acc, i));
        assert(val_of(s.subrange(i, j)) == 0);
        assert((j - i) as nat == 0);
        assert(acc * pow10((j - i) as nat) == acc * 1);
        assert(acc * 1 == acc) by (nonlinear_arith);
        assert(parse_digits(s, i, acc) == (acc * pow10((j - i) as nat) + val_of(s.subrange(i, j)), j));
    } else {
        let d = digit_val(s[i]) as nat;
        let acc2 = acc * 10 + d;
        lemma_parse_digits_enc(s, i + 1, j, acc2);
        let ds = s.subrange(i, j);
        assert(forall|k: int| 0 <= k < ds.len() ==> is_digit(#[trigger] ds[k]));
        lemma_val_front(ds);
        assert(ds[0] == s[i]);
        assert(ds.drop_first() =~= s.subrange(i + 1, j));
        let k = (j - i - 1) as nat;
        assert(pow10((j - i) as nat) == 10 * pow10(k));
        assert((acc * 10 + d) * pow10(k) == acc * (10 * pow10(k)) + d * pow10(k))
            by (nonlinear_arith);
        assert(is_digit(s[i]));
        assert(digit_val(ds[0]) == d);
        assert(val_of(ds) == d * pow10(k) + val_of(s.subrange(i + 1, j)));
        assert(parse_digits(s, i + 1, acc2) == (acc2 * pow10(k) + val_of(s.subrange(i + 1, j)), j));
        assert(acc2 * pow10(k) + val_of(s.subrange(i + 1, j)) == acc * pow10((j - i) as nat)
            + val_of(ds));
        assert(parse_digits(s, i, acc) == parse_digits(s, i + 1, acc2));
        assert(parse_digits(s, i, acc) == (acc * pow10((j - i) as nat) + val_of(s.subrange(i, j)), j));
    }
}

/// Parsing a number at its decimal form, with no digit following, gives
/// the number back and stops right after it.
proof fn lemma_parse_nat_enc(s: Seq<char>, i: int, n: nat)
    requires
        0 <= i,
        i + spec_dec(n).len() <= s.len(),
        s.subrange(i, i + spec_dec(n).len()) == spec_dec(n),
        i + spec_dec(n).len() == s.len() || !is_digit(s[i + spec_dec(n).len()]),
    ensures
        parse_nat(s, i) == Some((n, i + spec_dec(n).len())),
{
    lemma_dec_digits(n);
    let l = spec_dec(n).len() as int;
    let j = i + l;
    assert forall|k: int| i <= k < j implies is_digit(#[trigger] s[k]) by {
        assert(s[k] == s.subrange(i, j)[k - i]);
    }
    assert(is_digit(s[i]));
    lemma_parse_digits_enc(s, i, j, 0);
    lemma_val_of_dec(n);
    assert(val_of(s.subrange(i, j)) == n);
}

/// Parsing a string at its encoding gives the string back and stops right
/// after it.
proof fn lemma_parse_str_enc(s: Seq<char>, i: int, t: Seq<char>)
    requires
        0 <= i,
        i + spec_enc_str(t).len() <= s.len(),
        s.subrange(i, i + spec_enc_str(t).len()) == spec_enc_str(t),
    ensures
        parse_str(s, i) == Some((t, i + spec_enc_str(t).len())),
{
    let e = spec_enc_str(t);
    let dl = spec_dec(t.len()).len() as int;
    let j = i + dl;
    let k = j + 1;
    let end = i + e.len();
    lemma_dec_digits(t.len());
    assert(e.len() == dl + 1 + t.len());
    assert forall|m: int| 0 <= m < e.len() implies s[i + m] == e[m] by {
        assert(s.subrange(i, end)[m] == e[m]);
    }
    assert(e[dl] == ':');
    assert(s[j] == ':') by {
        assert(s[i + dl] == e[dl]);
    }
    assert(!is_digit(':'));
    assert(s.subrange(i, j) =~= spec_dec(t.len())) by {
        assert forall|m: int| 0 <= m < dl implies s.subrange(i, j)[m] == spec_dec(t.len())[m] by {
            assert(s[i + m] == e[m]);
            assert(e[m] == spec_dec(t.len())[m]);
        }
    }
    lemma_parse_nat_enc(s, i, t.len());
    assert(parse_nat(s, i) == Some((t.len(), j)));
    assert(parse_lit(s, j, ':') == Some(k));
    assert(k + t.len() <= s.len());
    assert(s.subrange(k, k + t.len()) =~= t) by {
        assert forall|m: int| 0 <= m < t.len() implies s.subrange(k, k + t.len())[m] == t[m] by {
            assert(s[i + (dl + 1 + m)] == e[dl + 1 + m]);
            assert(e[dl + 1 + m] == t[m]);
        }
    }
}

/// Parsing a stream group at its encoding gives the stream back and stops
/// right after it.
proof fn lemma_parse_stream_enc(s: Seq<char>, i: int, sv: StreamView)
    requires
        0 <= i,
        i + spec_enc_stream(sv).len() <= s.len(),
        s.subrange(i, i + spec_enc_stream(sv).len()) == spec_enc_stream(sv),
    ensures
        parse_stream(s, i) == Some((sv, i + spec_enc_stream(sv).len())),
{
    let e = spec_enc_stream(sv);
    let d0 = spec_dec(sv.id);
    let e1 = spec_enc_str(sv.name);
    let e2 = spec_enc_str(sv.url);
    lemma_dec_digits(sv.id);
    let p1 = i + d0.len();
    let p2 = p1 + 1;
    let p3 = p2 + e1.len();
    let p4 = p3 + 1;
    let p5 = p4 + e2.len();
    let end = p5 + 1;
    assert(e.len() == d0.len() + 1 + e1.len() + 1 + e2.len() + 1);
    assert forall|m: int| 0 <= m < e.len() implies s[i + m] == e[m] by {
        assert(s.subrange(i, end)[m] == e[m]);
    }
    assert(e[p1 - i] == ',');
    assert(e[p3 - i] == ',');
    assert(e[p5 - i] == ';');
    assert(s[p1] == ',') by {
        assert(s[i + (p1 - i)] == e[p1 - i]);
    }
    assert(s[p3] == ',') by {
        assert(s[i + (p3 - i)] == e[p3 - i]);
    }
    assert(s[p5] == ';') by {
        assert(s[i + (p5 - i)] == e[p5 - i]);
    }
    assert(!is_digit(','));
    assert(s.subrange(i, p1) =~= d0) by {
        assert forall|m: int| 0 <= m < d0.len() implies s.subrange(i, p1)[m] == d0[m] by {
            assert(s[i + m] == e[m]);
            assert(e[m] == d0[m]);
        }
    }
    lemma_parse_nat_enc(s, i, sv.id);
    assert(parse_nat(s, i) == Some((sv.id, p1)));
    assert(parse_lit(s, p1, ',') == Some(p2));
    assert(s.subrange(p2, p2 + e1.len()) =~= e1) by {
        assert forall|m: int| 0 <= m < e1.len() implies s.subrange(p2, p2 + e1.len())[m]
            == e1[m] by {
            assert(s[i + (p2 - i + m)] == e[p2 - i + m]);
            assert(e[p2 - i + m] == e1[m]);
        }
    }
    lemma_parse_str_enc(s, p2, sv.name);
    assert(parse_str(s, p2) == Some((sv.name, p3)));
    assert(parse_lit(s, p3, ',') == Some(p4));
    assert(s.subrange(p4, p4 + e2.len()) =~= e2) by {
        assert forall|m: int| 0 <= m < e2.len() implies s.subrange(p4, p4 + e2.len())[m]
            == e2[m] by {
            assert(s[i + (p4 - i + m)] == e[p4 - i + m]);
            assert(e[p4 - i + m] == e2[m]);
        }
    }
    lemma_parse_str_enc(s, p4, sv.url);
    assert(parse_str(s, p4) == Some((sv.url, p5)));
    assert(parse_lit(s, p5, ';') == Some(end));
}

/// Parsing as many stream groups as were encoded gives the streams back
/// and stops right after them.
proof fn lemma_parse_streams_enc(s: Seq<char>, i: int, svs: Seq<StreamView>)
    requires
        0 <= i,
        i + spec_enc_streams(svs).len() <= s.len(),
        s.subrange(i, i + spec_enc_streams(svs).len()) == spec_enc_streams(svs),
    ensures
        parse_streams(s, i, svs.len()) == Some((svs, i + spec_enc_streams(svs).len())),
    decreases svs.len(),
{
    if svs.len() == 0 {
        assert(svs =~= Seq::<StreamView>::empty());
        assert(parse_streams(s, i, 0) == Some((Seq::<StreamView>::empty(), i)));
    } else {
        let e = spec_enc_streams(svs);
        let e0 = spec_enc_stream(svs[0]);
        let rest = spec_enc_streams(svs.drop_first());
        assert(e == e0 + rest);
        let mid = i + e0.len();
        let end = i + e.len();
        assert forall|m: int| 0 <= m < e.len() implies s[i + m] == e[m] by {
            assert(s.subrange(i, end)[m] == e[m]);
        }
        assert(s.subrange(i, mid) =~= e0) by {
            assert forall|m: int| 0 <= m < e0.len() implies s.subrange(i, mid)[m] == e0[m] by {
                assert(s[i + m] == e[m]);
                assert(e[m] == e0[m]);
            }
        }
        lemma_parse_stream_enc(s, i, svs[0]);
        assert(s.subrange(mid, mid + rest.len()) =~= rest) by {
            assert forall|m: int| 0 <= m < rest.len() implies s.subrange(mid, mid + rest.len())[m]
                == rest[m] by {
                assert(s[i + (e0.len() + m)] == e[e0.len() + m]);
                assert(e[e0.len() + m] == rest[m]);
            }
        }
        lemma_parse_streams_enc(s, mid, svs.drop_first());
        assert(seq![svs[0]] + svs.drop_first() =~= svs);
        assert(parse_streams(s, i, svs.len()) == Some((svs, end)));
    }
}

/// Round trip: parsing a store's rendered form gives back exactly its
/// cursor and its stream sequence — set, order and positions included.
/// The id counter is deliberately not part of the record; loading
/// recomputes it from the ids present.
pub proof fn lemma_config_round_trip(v: CfgView)
    ensures
        parse_cfg(spec_enc_cfg(v)) == Some((v.current, v.streams)),
{
    let s = spec_enc_cfg(v);
    let dc = spec_dec(v.current);
    let dn = spec_dec(v.streams.len());
    let es = spec_enc_streams(v.streams);
    lemma_dec_digits(v.current);
    lemma_dec_digits(v.streams.len());
    let p1 = dc.len() as int;
    let p2 = p1 + 1;
    let p3 = p2 + dn.len();
    let p4 = p3 + 1;
    assert(s.len() == p4 + es.len());
    assert forall|m: int| 0 <= m < s.len() implies s.subrange(0, s.len() as int)[m] == s[m] by {}
    assert(s.subrange(0, s.len() as int) =~= s);
    assert(s[p1] == ';');
    assert(s[p3] == ';');
    assert(!is_digit(';'));
    assert(s.subrange(0, p1) =~= dc) by {
        assert forall|m: int| 0 <= m < p1 implies s.subrange(0, p1)[m] == dc[m] by {
            assert(s[m] == dc[m]);
        }
    }
    lemma_parse_nat_enc(s, 0, v.current);
    assert(parse_nat(s, 0) == Some((v.current, p1)));
    assert(parse_lit(s, p1, ';') == Some(p2));
    assert(s.subrange(p2, p3) =~= dn) by {
        assert forall|m: int| 0 <= m < dn.len() implies s.subrange(p2, p3)[m] == dn[m] by {
            assert(s[p2 + m] == dn[m]);
        }
    }
    lemma_parse_nat_enc(s, p2, v.streams.len());
    assert(parse_nat(s, p2) == Some((v.streams.len(), p3)));
    assert(parse_lit(s, p3, ';') == Some(p4));
    assert(s.subrange(p4, p4 + es.len()) =~= es) by {
        assert forall|m: int| 0 <= m < es.len() implies s.subrange(p4, p4 + es.len())[m]
            == es[m] by {
            assert(s[p4 + m] == es[m]);
        }
    }
    lemma_parse_streams_enc(s, p4, v.streams);
    assert(parse_streams(s, p4, v.streams.len()) == Some((v.streams, s.len() as int)));
}

/// No two streams carry the same id.
pub open spec fn unique_ids(svs: Seq<StreamView>) -> bool {
    forall|i: int, j: int|
        #![trigger svs[i].id, svs[j].id]
        0 <= i < j < svs.len() ==> svs[i].id != svs[j].id
}

/// The largest id in a stream sequence, zero when it is empty.
pub open spec fn spec_max_id(svs: Seq<StreamView>) -> nat
    decreases svs.len(),
{
    if svs.len() == 0 {
        0
    } else {
        let m = spec_max_id(svs.drop_last());
        if svs.last().id > m {
            svs.last().id
        } else {
            m
        }
    }
}

/// A parsed record the running machine can hold: cursor and ids within
/// the machine's word, and no id repeated.
pub open spec fn cfg_fits(cur: nat, svs: Seq<StreamView>) -> bool {
    &&& cur <= usize::MAX as nat
    &&& forall|k: int| 0 <= k < svs.len() ==> (#[trigger] svs[k].id) <= usize::MAX as nat
    &&& unique_ids(svs)
}

/// The largest id dominates every id.
proof fn lemma_max_id_bounds(svs: Seq<StreamView>)
    ensures
        forall|k: int| 0 <= k < svs.len() ==> (#[trigger] svs[k].id) <= spec_max_id(svs),
    decreases svs.len(),
{
    if svs.len() > 0 {
        lemma_max_id_bounds(svs.drop_last());
        assert(forall|k: int|
            0 <= k < svs.len() - 1 ==> svs.drop_last()[k] == #[trigger] svs[k]);
    }
}

/// A parsed number ends past where it began and within the text.
proof fn lemma_parse_nat_bounds(s: Seq<char>, i: int)
    ensures
        parse_nat(s, i) matches Some(p) ==> i < p.1 <= s.len(),
{
    if parse_nat(s, i) is Some {
        lemma_parse_digits_bounds(s, i + 1, digit_val(s[i]) as nat);
        assert(parse_digits(s, i, 0) == parse_digits(s, i + 1, digit_val(s[i]) as nat));
    }
}

/// A parsed string ends past where it began and within the text.
proof fn lemma_parse_str_bounds(s: Seq<char>, i: int)
    ensures
        parse_str(s, i) matches Some(p) ==> i < p.1 <= s.len(),
{
    match parse_nat(s, i) {
        Some((len, j)) => {
            lemma_parse_nat_bounds(s, i);
        },
        None => {},
    }
}

/// A parsed stream group ends past where it began and within the text.
proof fn lemma_parse_stream_bounds(s: Seq<char>, i: int)
    ensures
        parse_stream(s, i) matches Some(p) ==> i < p.1 <= s.len(),
{
    match parse_nat(s, i) {
        Some((id, j)) => {
            lemma_parse_nat_bounds(s, i);
            match parse_lit(s, j, ',') {
                Some(j1) => {
                    lemma_parse_str_bounds(s, j1);
                    match parse_str(s, j1) {
                        Some((name, j2)) => {
                            match parse_lit(s, j2, ',') {
                                Some(j3) => {
                                    lemma_parse_str_bounds(s, j3);
                                },
                                None => {},
                            }
                        },
                        None => {},
                    }
                },
                None => {},
            }
        },
        None => {},
    }
}

/// Parsing `n` stream groups advances by at least `n` positions, and (for
/// `n > 0`) ends within the text: more groups were asked for than the
/// text could hold exactly when this fails.
proof fn lemma_parse_streams_bounds(s: Seq<char>, i: int, n: nat)
    ensures
        parse_streams(s, i, n) matches Some(p) ==> p.0.len() == n && p.1 >= i + n && (n > 0
            ==> p.1 <= s.len()),
    decreases n,
{
    if n > 0 {
        match parse_stream(s, i) {
            Some((sv, j)) => {
                lemma_parse_stream_bounds(s, i);
                lemma_parse_streams_bounds(s, j, (n - 1) as nat);
                match parse_streams(s, j, (n - 1) as nat) {
                    Some((svs, k)) => {
                        if n == 1 {
                            assert(k == j);
                        }
                    },
                    None => {},
                }
            },
            None => {},
        }
    }
}

/// Numeric value of one digit character, or nothing for any other
/// character.
fn digit_of(c: char) -> (r: Option<usize>)
    ensures
        match r {
            Some(d) => digit_val(c) == d as int && d < 10,
            None => digit_val(c) == -1,
        },
{
    match c {
        '0' => Some(0),
        '1' => Some(1),
        '2' => Some(2),
        '3' => Some(3),
        '4' => Some(4),
        '5' => Some(5),
        '6' => Some(6),
        '7' => Some(7),
        '8' => Some(8),
        '9' => Some(9),
        _ => None,
    }
}

/// Read a decimal number at `from`. Fails exactly where the grammar has
/// no number or the number does not fit the machine word.
fn scan_nat(s: &str, from: usize) -> (r: Option<(usize, usize)>)
    ensures
        match r {
            Some(p) => parse_nat(s@, from as int) == Some((p.0 as nat, p.1 as int)) && from < p.1
                <= s@.len(),
            None => match parse_nat(s@, from as int) {
                Some(q) => q.0 > usize::MAX as nat,
                None => true,
            },
        },
{
    let n = s.unicode_len();
    if from >= n {
        return None;
    }
    let c0 = s.get_char(from);
    match digit_of(c0) {
        None => {
            return None;
        },
        Some(_) => {},
    }
    let mut i: usize = from;
    let mut acc: usize = 0;
    while i < n
        invariant
            n == s@.len(),
            from <= i <= n,
            is_digit(s@[from as int]),
            parse_digits(s@, from as int, 0) == parse_digits(s@, i as int, acc as nat),
        decreases n - i,
    {
        let c = s.get_char(i);
        match digit_of(c) {
            Some(d) => {
                let ghost acc2 = acc as nat * 10 + d as nat;
                proof {
                    assert(parse_digits(s@, i as int, acc as nat) == parse_digits(
                        s@,
                        i as int + 1,
                        acc2,
                    ));
                    lemma_parse_digits_bounds(s@, i as int + 1, acc2);
                }
                let m = match acc.checked_mul(10) {
                    Some(m) => m,
                    None => {
                        return None;
                    },
                };
                let step = match m.checked_add(d) {
                    Some(a) => a,
                    None => {
                        return None;
                    },
                };
                acc = step;
                i = i + 1;
            },
            None => {
                return Some((acc, i));
            },
        }
    }
    Some((acc, i))
}

/// Read one expected character at `from`.
fn scan_lit(s: &str, from: usize, c: char) -> (r: Option<usize>)
    ensures
        match r {
            Some(j) => parse_lit(s@, from as int, c) == Some(j as int) && j == from + 1 && j
                <= s@.len(),
            None => parse_lit(s@, from as int, c) is None,
        },
{
    let n = s.unicode_len();
    if from < n {
        let ch = s.get_char(from);
        if ch == c {
            Some(from + 1)
        } else {
            None
        }
    } else {
        None
    }
}

/// Read a length-prefixed string at `from`. Fails exactly where the
/// grammar has none there: a length too large for the machine word is
/// also too large for the text.
fn scan_str(s: &str, from: usize) -> (r: Option<(String, usize)>)
    ensures
        match r {
            Some(p) => parse_str(s@, from as int) == Some((p.0@, p.1 as int)) && from < p.1
                <= s@.len(),
            None => parse_str(s@, from as int) is None,
        },
{
    let n = s.unicode_len();
    let (l, j) = match scan_nat(s, from) {
        Some(p) => p,
        None => {
            proof {
                match parse_nat(s@, from as int) {
                    Some((v, j0)) => {
                        match parse_lit(s@, j0, ':') {
                            Some(k0) => {
                                assert(k0 + v > s@.len());
                            },
                            None => {},
                        }
                    },
                    None => {},
                }
            }
            return None;
        },
    };
    let k = match scan_lit(s, j, ':') {
        Some(p) => p,
        None => {
            return None;
        },
    };
    if l > n - k {
        return None;
    }
    let t = s.substring_char(k, k + l).to_owned();
    Some((t, k + l))
}

/// Read one stream group at `from`. Fails exactly where the grammar has
/// none there or the stream's id does not fit the machine word.
fn scan_stream(s: &str, from: usize) -> (r: Option<(Stream, usize)>)
    ensures
        match r {
            Some(p) => parse_stream(s@, from as int) == Some((p.0@, p.1 as int)) && from < p.1
                <= s@.len(),
            None => match parse_stream(s@, from as int) {
                Some(q) => q.0.id > usize::MAX as nat,
                None => true,
            },
        },
{
    let (id, j) = match scan_nat(s, from) {
        Some(p) => p,
        None => {
            return None;
        },
    };
    let j1 = match scan_lit(s, j, ',') {
        Some(p) => p,
        None => {
            return None;
        },
    };
    let (name, j2) = match scan_str(s, j1) {
        Some(p) => p,
        None => {
            return None;
        },
    };
    let j3 = match scan_lit(s, j2, ',') {
        Some(p) => p,
        None => {
            return None;
        },
    };
    let (url, j4) = match scan_str(s, j3) {
        Some(p) => p,
        None => {
            return None;
        },
    };
    let j5 = match scan_lit(s, j4, ';') {
        Some(p) => p,
        None => {
            return None;
        },
    };
    let st = Stream { name, url, id };
    Some((st, j5))
}

/// No two streams in the vector share an id.
fn ids_unique(streams: &Vec<Stream>) -> (r: bool)
    ensures
        r == unique_ids(streams@.map_values(|st: Stream| st@)),
{
    let ghost svs = streams@.map_values(|st: Stream| st@);
    let n = streams.len();
    let mut a: usize = 0;
    while a < n
        invariant
            n == streams.len(),
            a <= n,
            svs == streams@.map_values(|st: Stream| st@),
            forall|i: int, j: int|
                #![trigger svs[i].id, svs[j].id]
                0 <= i < j < n && i < a ==> svs[i].id != svs[j].id,
        decreases n - a,
    {
        let mut b: usize = a + 1;
        while b < n
            invariant
                n == streams.len(),
                a < n,
                a < b <= n,
                svs == streams@.map_values(|st: Stream| st@),
                forall|j: int| a < j < b ==> svs[a as int].id != (#[trigger] svs[j].id),
            decreases n - b,
        {
            if streams[a].id == streams[b].id {
                proof {
                    assert(svs[a as int].id == svs[b as int].id);
                }
                return false;
            }
            b = b + 1;
        }
        a = a + 1;
    }
    true
}

/// The largest id in the vector, zero when it is empty.
fn max_id(streams: &Vec<Stream>) -> (r: usize)
    ensures
        r as nat == spec_max_id(streams@.map_values(|st: Stream| st@)),
{
    let ghost svs = streams@.map_values(|st: Stream| st@);
    let n = streams.len();
    let mut best: usize = 0;
    let mut i: usize = 0;
    proof {
        assert(svs.take(0) =~= Seq::<StreamView>::empty());
    }
    while i < n
        invariant
            n == streams.len(),
            i <= n,
            svs == streams@.map_values(|st: Stream| st@),
            best as nat == spec_max_id(svs.take(i as int)),
        decreases n - i,
    {
        let id = streams[i].id;
        proof {
            assert(svs.take(i + 1).drop_last() =~= svs.take(i as int));
            assert(svs.take(i + 1).last() == svs[i as int]);
        }
        if id > best {
            best = id;
        }
        i = i + 1;
    }
    proof {
        assert(svs.take(n as int) =~= svs);
    }
    best
}

impl Player {
    /// Read a store back from its on-disk form. Succeeds exactly on a
    /// well-formed record whose cursor and ids fit the machine word with
    /// no id repeated; the id counter comes back as the largest id
    /// present.
    pub fn from_config_text(s: &str) -> (r: Option<Player>)
        ensures
            match r {
                Some(p) => {
                    &&& parse_cfg(s@) == Some((p@.current, p@.streams))
                    &&& p@.last_id == spec_max_id(p@.streams)
                    &&& p@.wf()
                },
                None => match parse_cfg(s@) {
                    Some(q) => !cfg_fits(q.0, q.1),
                    None => true,
                },
            },
    {
        let n = s.unicode_len();
        let (cur, i1) = match scan_nat(s, 0) {
            Some(p) => p,
            None => {
                return None;
            },
        };
        let i2 = match scan_lit(s, i1, ';') {
            Some(p) => p,
            None => {
                return None;
            },
        };
        let (cnt, i3) = match scan_nat(s, i2) {
            Some(p) => p,
            None => {
                proof {
                    match parse_nat(s@, i2 as int) {
                        Some((v, j3)) => {
                            match parse_lit(s@, j3, ';') {
                                Some(m) => {
                                    lemma_parse_streams_bounds(s@, m, v);
                                },
                                None => {},
                            }
                        },
                        None => {},
                    }
                }
                return None;
            },
        };
        let i4 = match scan_lit(s, i3, ';') {
            Some(p) => p,
            None => {
                return None;
            },
        };
        let mut streams: Vec<Stream> = Vec::new();
        let mut i: usize = i4;
        let mut t: usize = 0;
        proof {
            assert(streams@.map_values(|st: Stream| st@) =~= Seq::<StreamView>::empty());
            match parse_streams(s@, i4 as int, cnt as nat) {
                Some((svs, e)) => {
                    assert(streams@.map_values(|st: Stream| st@) + svs =~= svs);
                },
                None => {},
            }
        }
        while t < cnt
            invariant
                n == s@.len(),
                t <= cnt,
                i <= n,
                streams@.len() == t,
                parse_nat(s@, 0) == Some((cur as nat, i1 as int)),
                parse_lit(s@, i1 as int, ';') == Some(i2 as int),
                parse_nat(s@, i2 as int) == Some((cnt as nat, i3 as int)),
                parse_lit(s@, i3 as int, ';') == Some(i4 as int),
                parse_streams(s@, i as int, (cnt - t) as nat) matches Some(p)
                    ==> parse_streams(s@, i4 as int, cnt as nat) == Some(
                    (streams@.map_values(|st: Stream| st@) + p.0, p.1),
                ),
                parse_streams(s@, i as int, (cnt - t) as nat) is None ==> parse_streams(
                    s@,
                    i4 as int,
                    cnt as nat,
                ) is None,
            decreases cnt - t,
        {
            let ghost old_views = streams@.map_values(|st: Stream| st@);
            let ghost rem = (cnt - t) as nat;
            match scan_stream(s, i) {
                Some((st, j)) => {
                    proof {
                        assert(parse_stream(s@, i as int) == Some((st@, j as int)));
                        match parse_streams(s@, j as int, (rem - 1) as nat) {
                            Some((svs, k)) => {
                                assert(parse_streams(s@, i as int, rem) == Some(
                                    (seq![st@] + svs, k),
                                ));
                                assert(old_views + (seq![st@] + svs) =~= old_views.push(st@)
                                    + svs);
                            },
                            None => {
                                assert(parse_streams(s@, i as int, rem) is None);
                            },
                        }
                    }
                    streams.push(st);
                    proof {
                        assert(streams@.map_values(|st2: Stream| st2@) =~= old_views.push(st@));
                    }
                    i = j;
                    t = t + 1;
                },
                None => {
                    proof {
                        match parse_stream(s@, i as int) {
                            Some((sv, j2)) => {
                                assert(sv.id > usize::MAX as nat);
                                match parse_streams(s@, j2, (rem - 1) as nat) {
                                    Some((svs, k)) => {
                                        assert(parse_streams(s@, i as int, rem) == Some(
                                            (seq![sv] + svs, k),
                                        ));
                                        let total = old_views + (seq![sv] + svs);
                                        assert(total[t as int] == sv);
                                        assert(!cfg_fits(cur as nat, total));
                                    },
                                    None => {},
                                }
                            },
                            None => {},
                        }
                    }
                    return None;
                },
            }
        }
        proof {
            assert(parse_streams(s@, i as int, 0) == Some(
                (Seq::<StreamView>::empty(), i as int),
            ));
            assert(streams@.map_values(|st: Stream| st@) + Seq::<StreamView>::empty()
                =~= streams@.map_values(|st: Stream| st@));
        }
        if i != n {
            return None;
        }
        if !ids_unique(&streams) {
            return None;
        }
        let last = max_id(&streams);
        proof {
            lemma_max_id_bounds(streams@.map_values(|st: Stream| st@));
        }
        Some(Player { cfg: PlayerCfg { streams, current: cur, last_id: last } })
    }

    /// Render the store in its on-disk form.
    pub fn to_config_text(&self) -> (r: String)
        ensures
            r@ == spec_enc_cfg(self@),
    {
        proof {
            reveal_strlit(";");
        }
        let mut out = String::new();
        push_dec(&mut out, self.cfg.current);
        out.append(";");
        let n = self.cfg.streams.len();
        push_dec(&mut out, n);
        out.append(";");
        let ghost head = spec_dec(self@.current) + seq![';'] + spec_dec(self@.streams.len())
            + seq![';'];
        proof {
            assert(out@ =~= head + spec_enc_streams(self@.streams.take(0)));
        }
        let mut i: usize = 0;
        while i < n
            invariant
                n == self.cfg.streams.len(),
                i <= n,
                head == spec_dec(self@.current) + seq![';'] + spec_dec(self@.streams.len())
                    + seq![';'],
                out@ == head + spec_enc_streams(self@.streams.take(i as int)),
            decreases n - i,
        {
            push_enc_stream(&mut out, &self.cfg.streams[i]);
            proof {
                assert(self@.streams.take(i + 1) =~= self@.streams.take(i as int).push(
                    self@.streams[i as int],
                ));
                lemma_enc_streams_push(self@.streams.take(i as int), self@.streams[i as int]);
                assert(out@ =~= head + spec_enc_streams(self@.streams.take(i + 1)));
            }
            i = i + 1;
        }
        proof {
            assert(self@.streams.take(n as int) =~= self@.streams);
            assert(out@ =~= spec_enc_cfg(self@));
        }
        out
    }
}

} // verus!
