use vstd::prelude::*;

use crate::kanji::hex_digit_value;
use crate::user::{users_view, User, UserView};

verus! {

// The ranking list is persisted as structured text: a JSON array of
// objects `{"id":...,"username":...,"combo":...}`, the two strings with
// backslash and double quote escaped, the name `null` when still unset.
// Encoder and parser below are exact inverses, which is proved once and
// for all over the mathematical model.

/// The character for one decimal digit value.
pub open spec fn digit_char(d: int) -> char {
    if d == 0 {
        '0'
    } else if d == 1 {
        '1'
    } else if d == 2 {
        '2'
    } else if d == 3 {
        '3'
    } else if d == 4 {
        '4'
    } else if d == 5 {
        '5'
    } else if d == 6 {
        '6'
    } else if d == 7 {
        '7'
    } else if d == 8 {
        '8'
    } else {
        '9'
    }
}

/// Value of a decimal digit character, or -1 for any other character.
pub open spec fn digit_val(c: char) -> int {
    if '0' <= c && c <= '9' {
        c as int - '0' as int
    } else {
        -1
    }
}

/// The usual base-10 numeral of `n`, most significant digit first.
pub open spec fn dec_digits(n: int) -> Seq<char>
    decreases n,
{
    if n < 10 {
        seq![digit_char(n)]
    } else {
        dec_digits(n / 10) + seq![digit_char(n % 10)]
    }
}

/// The number a big-endian run of decimal digits denotes.
pub open spec fn dec_val(s: Seq<char>) -> int
    decreases s.len(),
{
    if s.len() == 0 {
        0
    } else {
        dec_val(s.drop_last()) * 10 + digit_val(s.last())
    }
}

/// How many decimal digits the sequence starts with.
pub open spec fn num_digits(s: Seq<char>) -> int
    decreases s.len(),
{
    if s.len() == 0 || digit_val(s[0]) < 0 {
        0
    } else {
        1 + num_digits(s.drop_first())
    }
}

/// Lowercase hex digit character for one value.
pub open spec fn hex_char(d: int) -> char {
    if d == 0 {
        '0'
    } else if d == 1 {
        '1'
    } else if d == 2 {
        '2'
    } else if d == 3 {
        '3'
    } else if d == 4 {
        '4'
    } else if d == 5 {
        '5'
    } else if d == 6 {
        '6'
    } else if d == 7 {
        '7'
    } else if d == 8 {
        '8'
    } else if d == 9 {
        '9'
    } else if d == 10 {
        'a'
    } else if d == 11 {
        'b'
    } else if d == 12 {
        'c'
    } else if d == 13 {
        'd'
    } else if d == 14 {
        'e'
    } else {
        'f'
    }
}

/// The character with code point `v`; meant for the control range.
pub open spec fn control_char(v: int) -> char {
    (v as u8) as char
}

/// The six-character escape of a control character: a backslash, `u`,
/// and the code point as four hex digits.
pub open spec fn control_escape(v: int) -> Seq<char> {
    seq!['\\', 'u', '0', '0', hex_char(v / 16), hex_char(v % 16)]
}

/// A string as it stands inside the quotes: backslash and double quote
/// each get a backslash in front, every control character becomes its
/// six-character escape, everything else stands for itself.
pub open spec fn escape_str(s: Seq<char>) -> Seq<char>
    decreases s.len(),
{
    if s.len() == 0 {
        Seq::empty()
    } else {
        let head = if s[0] == '\\' {
            seq!['\\', '\\']
        } else if s[0] == '"' {
            seq!['\\', '"']
        } else if (s[0] as int) < 32 {
            control_escape(s[0] as int)
        } else {
            seq![s[0]]
        };
        head + escape_str(s.drop_first())
    }
}

pub open spec fn pre_id() -> Seq<char> {
    seq!['{', '"', 'i', 'd', '"', ':', '"']
}

pub open spec fn mid_username() -> Seq<char> {
    seq![',', '"', 'u', 's', 'e', 'r', 'n', 'a', 'm', 'e', '"', ':']
}

pub open spec fn mid_combo() -> Seq<char> {
    seq![',', '"', 'c', 'o', 'm', 'b', 'o', '"', ':']
}

pub open spec fn null_lit() -> Seq<char> {
    seq!['n', 'u', 'l', 'l']
}

/// One persisted ranking entry.
pub open spec fn encode_user(u: UserView) -> Seq<char> {
    let name_part = match u.username {
        None => null_lit(),
        Some(n) => seq!['"'] + escape_str(n) + seq!['"'],
    };
    pre_id() + escape_str(u.id) + seq!['"'] + mid_username() + name_part + mid_combo()
        + dec_digits(u.combo as int) + seq!['}']
}

/// The entries joined by commas.
pub open spec fn encode_entries(l: Seq<UserView>) -> Seq<char>
    decreases l.len(),
{
    if l.len() == 0 {
        Seq::empty()
    } else if l.len() == 1 {
        encode_user(l[0])
    } else {
        encode_user(l[0]) + seq![','] + encode_entries(l.drop_first())
    }
}

/// The whole persisted ranking text.
pub open spec fn encode_ranking_spec(l: Seq<UserView>) -> Seq<char> {
    seq!['['] + encode_entries(l) + seq![']']
}

/// Reads a quoted string from after its opening quote: the unescaped
/// content and what follows the closing quote. A backslash introduces a
/// backslash, a quote, or a control character as `u` and four hex
/// digits; any other escape, or a missing closing quote, refuses the
/// text.
pub open spec fn parse_string_body(s: Seq<char>) -> Option<(Seq<char>, Seq<char>)>
    decreases s.len(),
{
    if s.len() == 0 {
        None
    } else if s[0] == '"' {
        Some((Seq::empty(), s.drop_first()))
    } else if s[0] == '\\' {
        if s.len() >= 2 && (s[1] == '\\' || s[1] == '"') {
            match parse_string_body(s.skip(2)) {
                None => None,
                Some((c, r)) => Some((seq![s[1]] + c, r)),
            }
        } else if s.len() >= 6 && s[1] == 'u' && s[2] == '0' && s[3] == '0'
            && hex_digit_value(s[4]) >= 0 && hex_digit_value(s[5]) >= 0
            && hex_digit_value(s[4]) * 16 + hex_digit_value(s[5]) < 32 {
            match parse_string_body(s.skip(6)) {
                None => None,
                Some((c, r)) => Some(
                    (seq![control_char(hex_digit_value(s[4]) * 16 + hex_digit_value(s[5]))] + c, r),
                ),
            }
        } else {
            None
        }
    } else {
        match parse_string_body(s.drop_first()) {
            None => None,
            Some((c, r)) => Some((seq![s[0]] + c, r)),
        }
    }
}

/// Reads the leading decimal numeral: its value and what follows it.
/// No digit at all, or a value that does not fit the streak counter,
/// refuses the text.
pub open spec fn parse_number(s: Seq<char>) -> Option<(int, Seq<char>)> {
    let k = num_digits(s);
    if k == 0 {
        None
    } else if dec_val(s.take(k)) > u32::MAX {
        None
    } else {
        Some((dec_val(s.take(k)), s.skip(k)))
    }
}

/// Reads one persisted entry: the participant snapshot and what follows
/// the closing brace.
pub open spec fn parse_user(s: Seq<char>) -> Option<(UserView, Seq<char>)> {
    if s.len() < 7 || s.take(7) != pre_id() {
        None
    } else {
        match parse_string_body(s.skip(7)) {
            None => None,
            Some((id, s2)) => {
                if s2.len() < 12 || s2.take(12) != mid_username() {
                    None
                } else {
                    let s3 = s2.skip(12);
                    let name_parsed: Option<(Option<Seq<char>>, Seq<char>)> = if s3.len() >= 4
                        && s3.take(4) == null_lit() {
                        Some((None, s3.skip(4)))
                    } else if s3.len() >= 1 && s3[0] == '"' {
                        match parse_string_body(s3.drop_first()) {
                            None => None,
                            Some((n, r)) => Some((Some(n), r)),
                        }
                    } else {
                        None
                    };
                    match name_parsed {
                        None => None,
                        Some((username, s4)) => {
                            if s4.len() < 9 || s4.take(9) != mid_combo() {
                                None
                            } else {
                                match parse_number(s4.skip(9)) {
                                    None => None,
                                    Some((v, s5)) => {
                                        if s5.len() >= 1 && s5[0] == '}' {
                                            Some(
                                                (
                                                    UserView {
                                                        id: id,
                                                        username: username,
                                                        combo: v as u32,
                                                    },
                                                    s5.drop_first(),
                                                ),
                                            )
                                        } else {
                                            None
                                        }
                                    },
                                }
                            }
                        },
                    }
                }
            },
        }
    }
}

/// A successfully read string lies strictly inside the text.
pub proof fn lemma_parse_string_body_consumes(s: Seq<char>)
    ensures
        parse_string_body(s) matches Some(p) ==> p.1.len() < s.len(),
    decreases s.len(),
{
    if s.len() == 0 {
    } else if s[0] == '"' {
    } else if s[0] == '\\' {
        if s.len() >= 2 && (s[1] == '\\' || s[1] == '"') {
            lemma_parse_string_body_consumes(s.skip(2));
        } else if s.len() >= 6 {
            lemma_parse_string_body_consumes(s.skip(6));
        }
    } else {
        lemma_parse_string_body_consumes(s.drop_first());
    }
}

/// A successfully read entry lies strictly inside the text.
pub proof fn lemma_parse_user_consumes(s: Seq<char>)
    ensures
        parse_user(s) matches Some(p) ==> p.1.len() < s.len(),
{
    if parse_user(s) is Some {
        lemma_parse_string_body_consumes(s.skip(7));
        let (id, s2) = parse_string_body(s.skip(7)).unwrap();
        assert(s2.len() < s.skip(7).len());
        let s3 = s2.skip(12);
        assert(s3.len() <= s2.len());
        let s4 = if s3.len() >= 4 && s3.take(4) == null_lit() {
            s3.skip(4)
        } else {
            lemma_parse_string_body_consumes(s3.drop_first());
            parse_string_body(s3.drop_first()).unwrap().1
        };
        assert(s4.len() <= s3.len());
        let s5n = s4.skip(9);
        assert(s5n.len() <= s4.len());
        lemma_num_digits_le(s5n);
        let k = num_digits(s5n);
        let s5 = s5n.skip(k);
        assert(s5.len() <= s5n.len());
        assert(parse_user(s).unwrap().1 == s5.drop_first());
    }
}

/// There are never more leading digits than characters.
proof fn lemma_num_digits_le(s: Seq<char>)
    ensures
        0 <= num_digits(s) <= s.len(),
    decreases s.len(),
{
    if !(s.len() == 0 || digit_val(s[0]) < 0) {
        lemma_num_digits_le(s.drop_first());
    }
}

/// Reads the comma-separated run of entries: the snapshots and whatever
/// follows the last one.
pub open spec fn parse_entries(s: Seq<char>) -> Option<(Seq<UserView>, Seq<char>)>
    decreases s.len(),
    via parse_entries_decreases
{
    match parse_user(s) {
        None => None,
        Some((u, r)) => {
            if r.len() >= 1 && r[0] == ',' {
                match parse_entries(r.drop_first()) {
                    None => None,
                    Some((l, r2)) => Some((seq![u] + l, r2)),
                }
            } else {
                Some((seq![u], r))
            }
        },
    }
}

#[via_fn]
proof fn parse_entries_decreases(s: Seq<char>) {
    lemma_parse_user_consumes(s);
}

/// The ranking list a persisted text denotes, when it is exactly one
/// our encoder could have produced.
pub open spec fn parse_ranking_spec(s: Seq<char>) -> Option<Seq<UserView>> {
    if s.len() >= 1 && s[0] == '[' {
        let t = s.drop_first();
        if t.len() >= 1 && t[0] == ']' {
            if t.len() == 1 {
                Some(Seq::empty())
            } else {
                None
            }
        } else {
            match parse_entries(t) {
                None => None,
                Some((l, r)) => {
                    if r == seq![']'] {
                        Some(l)
                    } else {
                        None
                    }
                },
            }
        }
    } else {
        None
    }
}

/// A char's code point: non-negative, at most the last code point, and
/// the same number whether read through `int` or `u32`.
proof fn lemma_char_int_bounds(c: char)
    ensures
        0 <= c as int <= 0x10FFFF,
        c as int == (c as u32) as int,
{
    broadcast use vstd::utf8::char_is_scalar;
}

/// The hex table reads back: each digit value comes out of its char.
proof fn lemma_hex_char_value(d: int)
    requires
        0 <= d < 16,
    ensures
        hex_digit_value(hex_char(d)) == d,
{
}

/// Unescaping undoes escaping, whatever follows the closing quote.
proof fn lemma_parse_string_roundtrip(x: Seq<char>, rest: Seq<char>)
    ensures
        parse_string_body(escape_str(x) + seq!['"'] + rest) == Some((x, rest)),
    decreases x.len(),
{
    let s = escape_str(x) + seq!['"'] + rest;
    if x.len() == 0 {
        assert(s =~= seq!['"'] + rest);
        assert(s[0] == '"');
        assert(s.drop_first() =~= rest);
    } else {
        lemma_parse_string_roundtrip(x.drop_first(), rest);
        let tail = escape_str(x.drop_first()) + seq!['"'] + rest;
        if x[0] == '\\' {
            assert(s =~= seq!['\\', '\\'] + tail);
            assert(s.skip(2) =~= tail);
            assert(seq![s[1]] + x.drop_first() =~= x);
        } else if x[0] == '"' {
            assert(s =~= seq!['\\', '"'] + tail);
            assert(s.skip(2) =~= tail);
            assert(seq![s[1]] + x.drop_first() =~= x);
        } else if (x[0] as int) < 32 {
            let v = x[0] as int;
            assert(0 <= v < 32) by {
                lemma_char_int_bounds(x[0]);
            }
            assert(s =~= control_escape(v) + tail);
            assert(s =~= seq!['\\', 'u', '0', '0', hex_char(v / 16), hex_char(v % 16)] + tail);
            assert(s[0] == '\\' && s[1] == 'u' && s[2] == '0' && s[3] == '0');
            assert(0 <= v / 16 < 2 && 0 <= v % 16 < 16) by (nonlinear_arith)
                requires 0 <= v < 32;
            lemma_hex_char_value(v / 16);
            lemma_hex_char_value(v % 16);
            vstd::arithmetic::div_mod::lemma_fundamental_div_mod(v, 16);
            assert(hex_digit_value(s[4]) * 16 + hex_digit_value(s[5]) == v);
            assert(s.skip(6) =~= tail);
            assert(control_char(v) == x[0]);
            assert(seq![control_char(v)] + x.drop_first() =~= x);
        } else {
            assert(s =~= seq![x[0]] + tail);
            assert(s.drop_first() =~= tail);
            assert(seq![s[0]] + x.drop_first() =~= x);
        }
    }
}

/// The numeral of `n` is all digits and reads back as `n`.
proof fn lemma_dec_digits_val(n: int)
    requires
        n >= 0,
    ensures
        dec_digits(n).len() >= 1,
        forall|i: int| 0 <= i < dec_digits(n).len() ==> digit_val(#[trigger] dec_digits(n)[i]) >= 0,
        dec_val(dec_digits(n)) == n,
    decreases n,
{
    if n < 10 {
        assert(dec_digits(n) =~= seq![digit_char(n)]);
        let one = seq![digit_char(n)];
        assert(one.drop_last() =~= Seq::<char>::empty());
        assert(dec_val(Seq::<char>::empty()) == 0);
        assert(one.last() == digit_char(n));
        assert(dec_val(one) == dec_val(one.drop_last()) * 10 + digit_val(one.last()));
        assert(digit_val(digit_char(n)) == n);
    } else {
        lemma_dec_digits_val(n / 10);
        vstd::arithmetic::div_mod::lemma_fundamental_div_mod(n, 10);
        let s = dec_digits(n);
        assert(s =~= dec_digits(n / 10) + seq![digit_char(n % 10)]);
        assert(s.drop_last() =~= dec_digits(n / 10));
        assert(s.last() == digit_char(n % 10));
        assert(0 <= n % 10 < 10);
        assert(digit_val(digit_char(n % 10)) == n % 10);
    }
}

/// Counting digits stops exactly where the digits stop.
proof fn lemma_num_digits_concat(a: Seq<char>, b: Seq<char>)
    requires
        forall|i: int| 0 <= i < a.len() ==> digit_val(#[trigger] a[i]) >= 0,
        b.len() == 0 || digit_val(b[0]) < 0,
    ensures
        num_digits(a + b) == a.len(),
    decreases a.len(),
{
    let s = a + b;
    if a.len() == 0 {
        assert(s =~= b);
    } else {
        lemma_num_digits_concat(a.drop_first(), b);
        assert(s[0] == a[0]);
        assert(s.drop_first() =~= a.drop_first() + b);
    }
}

/// Reading the numeral of `n` back yields `n` when a non-digit follows.
proof fn lemma_parse_number_roundtrip(n: int, rest: Seq<char>)
    requires
        0 <= n <= u32::MAX,
        rest.len() >= 1,
        digit_val(rest[0]) < 0,
    ensures
        parse_number(dec_digits(n) + rest) == Some((n, rest)),
{
    let a = dec_digits(n);
    let s = a + rest;
    lemma_dec_digits_val(n);
    lemma_num_digits_concat(a, rest);
    assert(s.take(a.len() as int) =~= a);
    assert(s.skip(a.len() as int) =~= rest);
}

/// Reading an encoded entry back yields the entry, whatever follows it.
#[verifier::rlimit(50)]
proof fn lemma_parse_user_roundtrip(u: UserView, rest: Seq<char>)
    ensures
        parse_user(encode_user(u) + rest) == Some((u, rest)),
{
    let name_part = match u.username {
        None => null_lit(),
        Some(n) => seq!['"'] + escape_str(n) + seq!['"'],
    };
    let tail_num = dec_digits(u.combo as int) + seq!['}'] + rest;
    let tail_combo = mid_combo() + tail_num;
    let tail_name = name_part + tail_combo;
    let tail_username = mid_username() + tail_name;
    let tail_id = escape_str(u.id) + seq!['"'] + tail_username;
    let s = encode_user(u) + rest;
    assert(s =~= pre_id() + tail_id);
    assert(s.take(7) =~= pre_id());
    assert(s.skip(7) =~= tail_id);
    lemma_parse_string_roundtrip(u.id, tail_username);
    let s2 = tail_username;
    assert(s2.take(12) =~= mid_username());
    assert(s2.skip(12) =~= tail_name);
    let s3 = tail_name;
    let s4 = tail_combo;
    match u.username {
        None => {
            assert(s3 =~= null_lit() + tail_combo);
            assert(s3.take(4) =~= null_lit());
            assert(s3.skip(4) =~= tail_combo);
        },
        Some(n) => {
            assert(s3 =~= seq!['"'] + (escape_str(n) + seq!['"'] + tail_combo));
            assert(s3[0] == '"');
            assert(s3.take(4) != null_lit()) by {
                assert(s3.take(4)[0] == '"');
                assert(null_lit()[0] == 'n');
                if s3.take(4) == null_lit() {
                    assert(s3.take(4)[0] == null_lit()[0]);
                }
            }
            assert(s3.drop_first() =~= escape_str(n) + seq!['"'] + tail_combo);
            lemma_parse_string_roundtrip(n, tail_combo);
        },
    }
    assert(s4.take(9) =~= mid_combo());
    assert(s4.skip(9) =~= tail_num);
    assert(digit_val('}') < 0);
    lemma_parse_number_roundtrip(u.combo as int, seq!['}'] + rest);
    assert(tail_num =~= dec_digits(u.combo as int) + (seq!['}'] + rest));
    assert(parse_number(tail_num) == Some((u.combo as int, seq!['}'] + rest)));
    let s5 = seq!['}'] + rest;
    assert(s5[0] == '}');
    assert(s5.drop_first() =~= rest);
    assert(u == (UserView { id: u.id, username: u.username, combo: (u.combo as int) as u32 }));
}

/// Reading encoded entries back yields the entries, up to the closing
/// bracket that follows them.
proof fn lemma_parse_entries_roundtrip(l: Seq<UserView>, rest: Seq<char>)
    requires
        l.len() >= 1,
        rest.len() >= 1,
        rest[0] != ',',
    ensures
        parse_entries(encode_entries(l) + rest) == Some((l, rest)),
    decreases l.len(),
{
    let s = encode_entries(l) + rest;
    if l.len() == 1 {
        assert(s =~= encode_user(l[0]) + rest);
        lemma_parse_user_roundtrip(l[0], rest);
        assert(seq![l[0]] =~= l);
    } else {
        let tail = encode_entries(l.drop_first()) + rest;
        assert(s =~= encode_user(l[0]) + (seq![','] + tail));
        lemma_parse_user_roundtrip(l[0], seq![','] + tail);
        let r = seq![','] + tail;
        assert(r[0] == ',');
        assert(r.drop_first() =~= tail);
        lemma_parse_entries_roundtrip(l.drop_first(), rest);
        assert(seq![l[0]] + l.drop_first() =~= l);
    }
}

/// Escaping one more character appends its escape.
proof fn lemma_escape_push(a: Seq<char>, c: char)
    ensures
        escape_str(a.push(c)) == escape_str(a) + (if c == '\\' {
            seq!['\\', '\\']
        } else if c == '"' {
            seq!['\\', '"']
        } else if (c as int) < 32 {
            control_escape(c as int)
        } else {
            seq![c]
        }),
    decreases a.len(),
{
    let tail = if c == '\\' {
        seq!['\\', '\\']
    } else if c == '"' {
        seq!['\\', '"']
    } else if (c as int) < 32 {
        control_escape(c as int)
    } else {
        seq![c]
    };
    if a.len() == 0 {
        reveal_with_fuel(escape_str, 3);
        assert(a.push(c) =~= seq![c]);
        assert(seq![c].drop_first() =~= Seq::<char>::empty());
        assert(escape_str(a.push(c)) =~= escape_str(a) + tail);
    } else {
        lemma_escape_push(a.drop_first(), c);
        assert(a.push(c).drop_first() =~= a.drop_first().push(c));
        assert(a.push(c)[0] == a[0]);
        let head = if a[0] == '\\' {
            seq!['\\', '\\']
        } else if a[0] == '"' {
            seq!['\\', '"']
        } else if (a[0] as int) < 32 {
            control_escape(a[0] as int)
        } else {
            seq![a[0]]
        };
        assert(escape_str(a.push(c)) == head + (escape_str(a.drop_first()) + tail));
        assert(head + (escape_str(a.drop_first()) + tail) =~= (head + escape_str(a.drop_first()))
            + tail);
    }
}

/// One more entry at the end joins with a comma, unless it is the first.
proof fn lemma_encode_entries_push(l: Seq<UserView>, u: UserView)
    ensures
        encode_entries(l.push(u)) == if l.len() == 0 {
            encode_user(u)
        } else {
            encode_entries(l) + seq![','] + encode_user(u)
        },
    decreases l.len(),
{
    let s = l.push(u);
    if l.len() == 0 {
        assert(s.len() == 1);
        assert(s[0] == u);
        assert(encode_entries(s) == encode_user(u));
    } else if l.len() == 1 {
        assert(s.len() == 2);
        assert(s[0] == l[0]);
        assert(s.drop_first() =~= seq![u]);
        assert(encode_entries(seq![u]) == encode_user(u));
        assert(encode_entries(l) == encode_user(l[0]));
    } else {
        lemma_encode_entries_push(l.drop_first(), u);
        assert(s.drop_first() =~= l.drop_first().push(u));
        assert(s[0] == l[0]);
        assert(encode_entries(s) == encode_user(l[0]) + seq![','] + (encode_entries(l.drop_first())
            + seq![','] + encode_user(u)));
        assert(encode_user(l[0]) + seq![','] + (encode_entries(l.drop_first()) + seq![',']
            + encode_user(u)) =~= (encode_user(l[0]) + seq![','] + encode_entries(l.drop_first()))
            + seq![','] + encode_user(u));
    }
}

/// Persist, then reload: the ranking list survives the trip exactly.
/// Whatever list of snapshots is written with the encoder, the parser
/// reads the very same list back.
pub proof fn lemma_ranking_roundtrip(l: Seq<UserView>)
    ensures
        parse_ranking_spec(encode_ranking_spec(l)) == Some(l),
{
    let s = encode_ranking_spec(l);
    assert(s[0] == '[');
    let t = s.drop_first();
    assert(t =~= encode_entries(l) + seq![']']);
    if l.len() == 0 {
        assert(t =~= seq![']']);
    } else {
        lemma_parse_entries_roundtrip(l, seq![']']);
        assert(t[0] == '{') by {
            assert(encode_entries(l).len() >= 1) by {
                if l.len() == 1 {
                    assert(encode_entries(l) =~= encode_user(l[0]));
                }
            }
            assert(encode_entries(l)[0] == '{') by {
                if l.len() == 1 {
                    assert(encode_entries(l) =~= encode_user(l[0]));
                }
                assert(encode_user(l[0])[0] == '{');
            }
        }
    }
}

fn digit_char_exec(d: u32) -> (r: char)
    requires
        d < 10,
    ensures
        r == digit_char(d as int),
{
    if d == 0 {
        '0'
    } else if d == 1 {
        '1'
    } else if d == 2 {
        '2'
    } else if d == 3 {
        '3'
    } else if d == 4 {
        '4'
    } else if d == 5 {
        '5'
    } else if d == 6 {
        '6'
    } else if d == 7 {
        '7'
    } else if d == 8 {
        '8'
    } else {
        '9'
    }
}

/// Value of a decimal digit character, or -1 for any other character.
fn digit_exec(c: char) -> (r: i32)
    ensures
        r as int == digit_val(c),
{
    let u = c as u32;
    if u >= 48 && u <= 57 {
        (u - 48) as i32
    } else {
        -1
    }
}

/// Appends the decimal numeral of `n`.
fn push_dec(out: &mut Vec<char>, n: u32)
    ensures
        final(out)@ == old(out)@ + dec_digits(n as int),
    decreases n,
{
    if n < 10 {
        out.push(digit_char_exec(n));
        proof {
            assert(out@ =~= old(out)@ + dec_digits(n as int));
        }
    } else {
        push_dec(out, n / 10);
        out.push(digit_char_exec(n % 10));
        proof {
            assert(out@ =~= old(out)@ + dec_digits(n as int));
        }
    }
}

/// Lowercase hex digit character for one value.
fn hex_char_exec(d: u32) -> (r: char)
    requires
        d < 16,
    ensures
        r == hex_char(d as int),
{
    if d == 0 {
        '0'
    } else if d == 1 {
        '1'
    } else if d == 2 {
        '2'
    } else if d == 3 {
        '3'
    } else if d == 4 {
        '4'
    } else if d == 5 {
        '5'
    } else if d == 6 {
        '6'
    } else if d == 7 {
        '7'
    } else if d == 8 {
        '8'
    } else if d == 9 {
        '9'
    } else if d == 10 {
        'a'
    } else if d == 11 {
        'b'
    } else if d == 12 {
        'c'
    } else if d == 13 {
        'd'
    } else if d == 14 {
        'e'
    } else {
        'f'
    }
}

/// Appends `v` with backslash, double quote and control characters
/// escaped.
fn push_escaped(out: &mut Vec<char>, v: &Vec<char>)
    ensures
        final(out)@ == old(out)@ + escape_str(v@),
{
    let mut i: usize = 0;
    proof {
        assert(v@.take(0) =~= Seq::<char>::empty());
        assert(out@ =~= old(out)@ + escape_str(v@.take(0)));
    }
    while i < v.len()
        invariant
            i <= v@.len(),
            out@ == old(out)@ + escape_str(v@.take(i as int)),
        decreases v@.len() - i,
    {
        let c = v[i];
        proof {
            lemma_char_int_bounds(c);
        }
        if c == '\\' {
            out.push('\\');
            out.push('\\');
        } else if c == '"' {
            out.push('\\');
            out.push('"');
        } else if (c as u32) < 32 {
            let code = c as u32;
            proof {
                assert(code as int == c as int);
            }
            out.push('\\');
            out.push('u');
            out.push('0');
            out.push('0');
            out.push(hex_char_exec(code / 16));
            out.push(hex_char_exec(code % 16));
            proof {
                assert((code / 16) as int == (c as int) / 16);
                assert((code % 16) as int == (c as int) % 16);
            }
        } else {
            out.push(c);
        }
        proof {
            lemma_escape_push(v@.take(i as int), c);
            assert(v@.take(i as int).push(c) =~= v@.take(i + 1));
            assert(out@ =~= old(out)@ + escape_str(v@.take(i + 1)));
        }
        i += 1;
    }
    proof {
        assert(v@.take(v@.len() as int) =~= v@);
    }
}

fn pre_id_chars() -> (r: Vec<char>)
    ensures
        r@ == pre_id(),
{
    let mut r: Vec<char> = Vec::new();
    r.push('{');
    r.push('"');
    r.push('i');
    r.push('d');
    r.push('"');
    r.push(':');
    r.push('"');
    proof {
        assert(r@ =~= pre_id());
    }
    r
}

fn mid_username_chars() -> (r: Vec<char>)
    ensures
        r@ == mid_username(),
{
    let mut r: Vec<char> = Vec::new();
    r.push(',');
    r.push('"');
    r.push('u');
    r.push('s');
    r.push('e');
    r.push('r');
    r.push('n');
    r.push('a');
    r.push('m');
    r.push('e');
    r.push('"');
    r.push(':');
    proof {
        assert(r@ =~= mid_username());
    }
    r
}

fn mid_combo_chars() -> (r: Vec<char>)
    ensures
        r@ == mid_combo(),
{
    let mut r: Vec<char> = Vec::new();
    r.push(',');
    r.push('"');
    r.push('c');
    r.push('o');
    r.push('m');
    r.push('b');
    r.push('o');
    r.push('"');
    r.push(':');
    proof {
        assert(r@ =~= mid_combo());
    }
    r
}

fn null_lit_chars() -> (r: Vec<char>)
    ensures
        r@ == null_lit(),
{
    let mut r: Vec<char> = Vec::new();
    r.push('n');
    r.push('u');
    r.push('l');
    r.push('l');
    proof {
        assert(r@ =~= null_lit());
    }
    r
}

/// Appends each character of `v`.
fn push_all(out: &mut Vec<char>, v: &Vec<char>)
    ensures
        final(out)@ == old(out)@ + v@,
{
    let mut i: usize = 0;
    while i < v.len()
        invariant
            i <= v@.len(),
            out@ == old(out)@ + v@.take(i as int),
        decreases v@.len() - i,
    {
        out.push(v[i]);
        i += 1;
        proof {
            assert(out@ =~= old(out)@ + v@.take(i as int));
        }
    }
    proof {
        assert(v@.take(v@.len() as int) =~= v@);
    }
}

/// Appends one encoded entry.
fn encode_user_into(out: &mut Vec<char>, u: &User)
    ensures
        final(out)@ == old(out)@ + encode_user(u@),
{
    let lit_pre = pre_id_chars();
    push_all(out, &lit_pre);
    let idc = crate::strutil::str_to_chars(u.id.as_str());
    push_escaped(out, &idc);
    out.push('"');
    let lit_mid_u = mid_username_chars();
    push_all(out, &lit_mid_u);
    match &u.username {
        Some(n) => {
            out.push('"');
            let nc = crate::strutil::str_to_chars(n.as_str());
            push_escaped(out, &nc);
            out.push('"');
        },
        None => {
            let lit_null = null_lit_chars();
            push_all(out, &lit_null);
        },
    }
    let lit_mid_c = mid_combo_chars();
    push_all(out, &lit_mid_c);
    push_dec(out, u.combo);
    out.push('}');
    proof {
        assert(out@ =~= old(out)@ + encode_user(u@));
    }
}

/// Writes the ranking list in its persisted form; exactly the text
/// `encode_ranking_spec` describes, which the parser reads back intact.
pub fn encode_ranking(l: &Vec<User>) -> (r: String)
    ensures
        r@ == encode_ranking_spec(users_view(l@)),
{
    let mut out: Vec<char> = Vec::new();
    out.push('[');
    let mut i: usize = 0;
    proof {
        assert(users_view(l@.take(0)) =~= Seq::<UserView>::empty());
        assert(out@ =~= seq!['['] + encode_entries(users_view(l@.take(0))));
    }
    while i < l.len()
        invariant
            i <= l@.len(),
            out@ == seq!['['] + encode_entries(users_view(l@.take(i as int))),
        decreases l@.len() - i,
    {
        if i > 0 {
            out.push(',');
        }
        encode_user_into(&mut out, &l[i]);
        proof {
            let prev = users_view(l@.take(i as int));
            lemma_encode_entries_push(prev, l@[i as int]@);
            assert(users_view(l@.take(i + 1)) =~= prev.push(l@[i as int]@));
            if i > 0 {
                assert(prev.len() == i);
                assert(out@ =~= seq!['['] + encode_entries(users_view(l@.take(i + 1))));
            } else {
                assert(out@ =~= seq!['['] + encode_entries(users_view(l@.take(i + 1))));
            }
        }
        i += 1;
    }
    out.push(']');
    proof {
        assert(l@.take(l@.len() as int) =~= l@);
        assert(out@ =~= encode_ranking_spec(users_view(l@)));
    }
    crate::strutil::chars_to_string(&out)
}

/// Whether the text at `i` continues with exactly `lit`.
fn match_at(w: &Vec<char>, i: usize, lit: &Vec<char>) -> (r: bool)
    requires
        i <= w@.len(),
    ensures
        r == (i + lit@.len() <= w@.len() && w@.skip(i as int).take(lit@.len() as int) == lit@),
{
    let n = lit.len();
    let wlen = w.len();
    if n > wlen - i {
        return false;
    }
    let mut t: usize = 0;
    while t < n
        invariant
            t <= n,
            wlen == w@.len(),
            i + n <= wlen,
            n == lit@.len(),
            forall|j: int| 0 <= j < t ==> w@[i + j] == lit@[j],
        decreases n - t,
    {
        if w[i + t] != lit[t] {
            proof {
                assert(w@.skip(i as int).take(n as int)[t as int] != lit@[t as int]);
            }
            return false;
        }
        t += 1;
    }
    proof {
        assert(w@.skip(i as int).take(n as int) =~= lit@);
    }
    true
}

/// Reads a quoted string at `i` (already past its opening quote), as
/// `parse_string_body` describes over the remaining text.
fn parse_string_body_exec(w: &Vec<char>, i: usize) -> (r: Option<(Vec<char>, usize)>)
    requires
        i <= w@.len(),
    ensures
        match r {
            Some(p) => i <= p.1 <= w@.len() && parse_string_body(w@.skip(i as int)) == Some(
                (p.0@, w@.skip(p.1 as int)),
            ),
            None => parse_string_body(w@.skip(i as int)) is None,
        },
{
    let mut acc: Vec<char> = Vec::new();
    let mut j: usize = i;
    while j < w.len()
        invariant
            i <= j <= w@.len(),
            match parse_string_body(w@.skip(j as int)) {
                None => parse_string_body(w@.skip(i as int)) is None,
                Some(p) => parse_string_body(w@.skip(i as int)) == Some((acc@ + p.0, p.1)),
            },
        decreases w@.len() - j,
    {
        let ghost s = w@.skip(j as int);
        proof {
            assert(s[0] == w@[j as int]);
            assert(s.drop_first() =~= w@.skip(j + 1));
        }
        let c = w[j];
        if c == '"' {
            proof {
                assert(acc@ + Seq::<char>::empty() =~= acc@);
            }
            return Some((acc, j + 1));
        } else if c == '\\' {
            if j + 1 >= w.len() {
                return None;
            }
            let e = w[j + 1];
            proof {
                assert(s[1] == w@[j + 1]);
                assert(s.skip(2) =~= w@.skip(j + 2));
            }
            if e == '\\' || e == '"' {
                proof {
                    if parse_string_body(w@.skip(j + 2)) is Some {
                        let p = parse_string_body(w@.skip(j + 2)).unwrap();
                        assert(acc@ + (seq![e] + p.0) =~= acc@.push(e) + p.0);
                    }
                }
                acc.push(e);
                j += 2;
            } else if e == 'u' {
                if w.len() - j < 6 {
                    return None;
                }
                proof {
                    assert(s[2] == w@[j + 2] && s[3] == w@[j + 3]);
                    assert(s[4] == w@[j + 4] && s[5] == w@[j + 5]);
                    assert(s.skip(6) =~= w@.skip(j + 6));
                }
                if !(w[j + 2] == '0' && w[j + 3] == '0') {
                    return None;
                }
                let hi = crate::kanji::hex_digit(w[j + 4]);
                let lo = crate::kanji::hex_digit(w[j + 5]);
                if hi < 0 || lo < 0 {
                    return None;
                }
                let v = hi * 16 + lo;
                if v >= 32 {
                    return None;
                }
                let decoded = (v as u8) as char;
                proof {
                    assert(decoded == control_char(hex_digit_value(s[4]) * 16 + hex_digit_value(
                        s[5],
                    )));
                    if parse_string_body(w@.skip(j + 6)) is Some {
                        let p = parse_string_body(w@.skip(j + 6)).unwrap();
                        assert(acc@ + (seq![decoded] + p.0) =~= acc@.push(decoded) + p.0);
                    }
                }
                acc.push(decoded);
                j += 6;
            } else {
                return None;
            }
        } else {
            proof {
                if parse_string_body(w@.skip(j + 1)) is Some {
                    let p = parse_string_body(w@.skip(j + 1)).unwrap();
                    assert(acc@ + (seq![c] + p.0) =~= acc@.push(c) + p.0);
                }
            }
            acc.push(c);
            j += 1;
        }
    }
    proof {
        assert(w@.skip(j as int).len() == 0);
    }
    None
}

/// Reads the decimal numeral at `i`, as `parse_number` describes over
/// the remaining text.
fn parse_number_exec(w: &Vec<char>, i: usize) -> (r: Option<(u32, usize)>)
    requires
        i <= w@.len(),
    ensures
        match r {
            Some(p) => i <= p.1 <= w@.len() && parse_number(w@.skip(i as int)) == Some(
                (p.0 as int, w@.skip(p.1 as int)),
            ),
            None => parse_number(w@.skip(i as int)) is None,
        },
{
    let ghost s = w@.skip(i as int);
    let mut j: usize = i;
    while j < w.len() && digit_exec(w[j]) >= 0
        invariant
            i <= j <= w@.len(),
            forall|t: int| i <= t < j ==> digit_val(#[trigger] w@[t]) >= 0,
            num_digits(s) == (j - i) + num_digits(w@.skip(j as int)),
        decreases w@.len() - j,
    {
        proof {
            let t = w@.skip(j as int);
            assert(t[0] == w@[j as int]);
            assert(t.drop_first() =~= w@.skip(j + 1));
        }
        j += 1;
    }
    proof {
        let t = w@.skip(j as int);
        if j < w@.len() {
            assert(t[0] == w@[j as int]);
        }
        assert(num_digits(t) == 0);
        assert(num_digits(s) == j - i);
    }
    if j == i {
        return None;
    }
    let ghost digits = s.take((j - i) as int);
    proof {
        assert(digits =~= w@.subrange(i as int, j as int));
    }
    let mut t: usize = i;
    let mut acc: u64 = 0;
    let mut too_big = false;
    while t < j
        invariant
            i <= t <= j <= w@.len(),
            forall|x: int| i <= x < j ==> digit_val(#[trigger] w@[x]) >= 0,
            digits == w@.subrange(i as int, j as int),
            !too_big ==> acc as int == dec_val(w@.subrange(i as int, t as int)) && acc
                <= u32::MAX,
            too_big ==> dec_val(w@.subrange(i as int, t as int)) > u32::MAX,
            dec_val(w@.subrange(i as int, t as int)) >= 0,
        decreases j - t,
    {
        let d = digit_exec(w[t]);
        proof {
            assert(w@.subrange(i as int, t + 1).drop_last() =~= w@.subrange(i as int, t as int));
            assert(w@.subrange(i as int, t + 1).last() == w@[t as int]);
        }
        if !too_big {
            acc = acc * 10 + (d as u64);
            if acc > 0xFFFF_FFFF {
                too_big = true;
            }
        } else {
            proof {
                let prev = dec_val(w@.subrange(i as int, t as int));
                assert(prev * 10 >= prev) by (nonlinear_arith)
                    requires prev >= 0;
            }
        }
        t += 1;
    }
    proof {
        assert(w@.subrange(i as int, j as int) == digits);
        assert(s.skip((j - i) as int) =~= w@.skip(j as int));
    }
    if too_big {
        return None;
    }
    Some((acc as u32, j))
}

/// Reads one persisted entry at `i`, as `parse_user` describes over the
/// remaining text.
fn parse_user_exec(w: &Vec<char>, i: usize) -> (r: Option<(User, usize)>)
    requires
        i <= w@.len(),
    ensures
        match r {
            Some(p) => i <= p.1 <= w@.len() && parse_user(w@.skip(i as int)) == Some(
                (p.0@, w@.skip(p.1 as int)),
            ),
            None => parse_user(w@.skip(i as int)) is None,
        },
{
    let ghost s = w@.skip(i as int);
    let wlen = w.len();
    proof {
        assert(wlen == w@.len());
    }
    let lit_pre = pre_id_chars();
    if !match_at(w, i, &lit_pre) {
        proof {
            if s.len() >= 7 {
                assert(s.take(7) == w@.skip(i as int).take(7));
            }
        }
        return None;
    }
    proof {
        assert(s.take(7) == pre_id());
        assert(s.skip(7) =~= w@.skip(i + 7));
    }
    let (idc, j2) = match parse_string_body_exec(w, i + 7) {
        Some(p) => p,
        None => {
            return None;
        },
    };
    let ghost s2 = w@.skip(j2 as int);
    let lit_mid_u = mid_username_chars();
    if !match_at(w, j2, &lit_mid_u) {
        proof {
            if s2.len() >= 12 {
                assert(s2.take(12) == w@.skip(j2 as int).take(12));
            }
        }
        return None;
    }
    proof {
        assert(s2.take(12) == mid_username());
        assert(s2.skip(12) =~= w@.skip(j2 + 12));
    }
    let j3 = j2 + 12;
    let ghost s3 = w@.skip(j3 as int);
    let lit_null = null_lit_chars();
    let username: Option<String>;
    let j4: usize;
    if match_at(w, j3, &lit_null) {
        proof {
            assert(s3.skip(4) =~= w@.skip(j3 + 4));
        }
        username = None;
        j4 = j3 + 4;
    } else if j3 < w.len() && {
        let c = w[j3];
        c == '"'
    } {
        proof {
            assert(s3[0] == w@[j3 as int]);
            assert(s3.drop_first() =~= w@.skip(j3 + 1));
        }
        match parse_string_body_exec(w, j3 + 1) {
            Some((nc, jj)) => {
                username = Some(crate::strutil::chars_to_string(&nc));
                j4 = jj;
            },
            None => {
                return None;
            },
        }
    } else {
        proof {
            if s3.len() >= 1 {
                assert(s3[0] == w@[j3 as int]);
            }
        }
        return None;
    }
    let ghost s4 = w@.skip(j4 as int);
    let lit_mid_c = mid_combo_chars();
    if !match_at(w, j4, &lit_mid_c) {
        proof {
            if s4.len() >= 9 {
                assert(s4.take(9) == w@.skip(j4 as int).take(9));
            }
        }
        return None;
    }
    proof {
        assert(s4.take(9) == mid_combo());
        assert(s4.skip(9) =~= w@.skip(j4 + 9));
    }
    let (v, j5) = match parse_number_exec(w, j4 + 9) {
        Some(p) => p,
        None => {
            return None;
        },
    };
    let ghost s5 = w@.skip(j5 as int);
    if j5 < w.len() && {
        let c = w[j5];
        c == '}'
    } {
        proof {
            assert(s5[0] == w@[j5 as int]);
            assert(s5.drop_first() =~= w@.skip(j5 + 1));
        }
        let u = User { id: crate::strutil::chars_to_string(&idc), username, combo: v };
        Some((u, j5 + 1))
    } else {
        proof {
            if s5.len() >= 1 {
                assert(s5[0] == w@[j5 as int]);
            }
        }
        None
    }
}

/// Reads the comma-separated entries at `i`, as `parse_entries`
/// describes over the remaining text.
fn parse_entries_exec(w: &Vec<char>, i: usize) -> (r: Option<(Vec<User>, usize)>)
    requires
        i <= w@.len(),
    ensures
        match r {
            Some(p) => i <= p.1 <= w@.len() && parse_entries(w@.skip(i as int)) == Some(
                (users_view(p.0@), w@.skip(p.1 as int)),
            ),
            None => parse_entries(w@.skip(i as int)) is None,
        },
{
    let mut acc: Vec<User> = Vec::new();
    let mut cur: usize = i;
    proof {
        assert(users_view(Seq::<User>::empty()) =~= Seq::<UserView>::empty());
    }
    loop
        invariant
            i <= cur <= w@.len(),
            match parse_entries(w@.skip(cur as int)) {
                None => parse_entries(w@.skip(i as int)) is None,
                Some(p) => parse_entries(w@.skip(i as int)) == Some(
                    (users_view(acc@) + p.0, p.1),
                ),
            },
        decreases w@.len() - cur,
    {
        let ghost s = w@.skip(cur as int);
        match parse_user_exec(w, cur) {
            None => {
                return None;
            },
            Some((u, j)) => {
                proof {
                    lemma_parse_user_consumes(s);
                    let rest = w@.skip(j as int);
                    if j < w@.len() {
                        assert(rest[0] == w@[j as int]);
                    }
                    assert(users_view(acc@.push(u)) =~= users_view(acc@) + seq![u@]);
                }
                let ghost uview = u@;
                acc.push(u);
                if j < w.len() && {
                    let c = w[j];
                    c == ','
                } {
                    proof {
                        let rest = w@.skip(j as int);
                        assert(rest.drop_first() =~= w@.skip(j + 1));
                        if parse_entries(w@.skip(j + 1)) is Some {
                            let p = parse_entries(w@.skip(j + 1)).unwrap();
                            assert(users_view(acc@) + p.0 =~= (users_view(acc@).drop_last()
                                + (seq![uview] + p.0)));
                        }
                    }
                    cur = j + 1;
                } else {
                    proof {
                        let rest = w@.skip(j as int);
                        assert(parse_entries(s) == Some((seq![uview], rest)));
                        assert(users_view(acc@).drop_last() + seq![uview] =~= users_view(acc@));
                    }
                    return Some((acc, j));
                }
            },
        }
    }
}

/// Reads a whole persisted ranking text back into the list it denotes,
/// exactly as `parse_ranking_spec` describes: the parser accepts the
/// encoder's output and nothing else.
pub fn parse_ranking(s: &str) -> (r: Option<Vec<User>>)
    ensures
        match r {
            Some(l) => parse_ranking_spec(s@) == Some(users_view(l@)),
            None => parse_ranking_spec(s@) is None,
        },
{
    let w = crate::strutil::str_to_chars(s);
    if w.len() == 0 {
        return None;
    }
    if w[0] != '[' {
        return None;
    }
    let ghost t = s@.drop_first();
    proof {
        assert(t =~= w@.skip(1));
        if w@.len() >= 2 {
            assert(t[0] == w@[1]);
        }
    }
    if w.len() >= 2 && {
        let c = w[1];
        c == ']'
    } {
        if w.len() == 2 {
            let empty: Vec<User> = Vec::new();
            proof {
                assert(users_view(empty@) =~= Seq::<UserView>::empty());
            }
            return Some(empty);
        } else {
            return None;
        }
    }
    match parse_entries_exec(&w, 1) {
        None => None,
        Some((l, j)) => {
            let ghost rest = w@.skip(j as int);
            if j < w.len() && {
                let c = w[j];
                c == ']'
            } && j + 1 == w.len() {
                proof {
                    assert(rest[0] == w@[j as int]);
                    assert(rest =~= seq![']']);
                }
                Some(l)
            } else {
                proof {
                    if rest == seq![']'] {
                        assert(rest.len() == 1);
                        assert(rest[0] == ']');
                        assert(w@[j as int] == rest[0]);
                    }
                }
                None
            }
        },
    }
}

} // verus!
