use vstd::prelude::*;

verus! {

/// Difficulty tier of a catalog entry.
#[derive(Clone, Copy, Debug, PartialEq, Eq, Structural)]
pub enum KanjiDifficulty {
    Easy,
    Medium,
    Hard,
}

/// One entry of the immutable question catalog: the code point written in
/// hex (the stable identifier clients submit), the reading, the glyph
/// itself, and its difficulty tier.
#[derive(Debug)]
pub struct Kanji {
    pub unicode: String,
    pub yomi: String,
    pub kanji: char,
    pub difficulty: KanjiDifficulty,
}

/// Mathematical image of a [`Kanji`]: both strings as character
/// sequences and the glyph as its code point.
pub ghost struct KanjiView {
    pub unicode: Seq<char>,
    pub yomi: Seq<char>,
    pub codepoint: u32,
    pub difficulty: KanjiDifficulty,
}

impl View for Kanji {
    type V = KanjiView;

    open spec fn view(&self) -> KanjiView {
        KanjiView {
            unicode: self.unicode@,
            yomi: self.yomi@,
            codepoint: self.kanji as u32,
            difficulty: self.difficulty,
        }
    }
}

impl Clone for Kanji {
    fn clone(&self) -> (r: Self)
        ensures
            r@ == self@,
    {
        Kanji {
            unicode: self.unicode.clone(),
            yomi: self.yomi.clone(),
            kanji: self.kanji,
            difficulty: self.difficulty,
        }
    }
}

pub open spec fn kanjis_view(s: Seq<Kanji>) -> Seq<KanjiView> {
    s.map_values(|k: Kanji| k@)
}

/// Value of a hex digit, or -1 for any other character.
pub open spec fn hex_digit_value(c: char) -> int {
    if '0' <= c && c <= '9' {
        c as int - '0' as int
    } else if 'a' <= c && c <= 'f' {
        10 + c as int - 'a' as int
    } else if 'A' <= c && c <= 'F' {
        10 + c as int - 'A' as int
    } else {
        -1
    }
}

/// A non-empty run of hex digits.
pub open spec fn is_hex_seq(s: Seq<char>) -> bool {
    s.len() > 0 && forall|i: int| 0 <= i < s.len() ==> hex_digit_value(s[i]) >= 0
}

/// The number a big-endian run of hex digits denotes.
pub open spec fn hex_val(s: Seq<char>) -> int
    decreases s.len(),
{
    if s.len() == 0 {
        0
    } else {
        hex_val(s.drop_last()) * 16 + hex_digit_value(s.last())
    }
}

/// A Unicode scalar value: a code point that is not a surrogate.
pub open spec fn is_scalar_value(v: int) -> bool {
    0 <= v <= 0x10FFFF && !(0xD800 <= v <= 0xDFFF)
}

/// The difficulty a level token of the dataset denotes, if any.
pub open spec fn difficulty_of(tok: Seq<char>) -> Option<KanjiDifficulty> {
    if tok == seq!['1'] {
        Some(KanjiDifficulty::Easy)
    } else if tok == seq!['2'] {
        Some(KanjiDifficulty::Medium)
    } else if tok == seq!['3'] {
        Some(KanjiDifficulty::Hard)
    } else {
        None
    }
}

/// A single dataset row, split on commas, yields a catalog entry when it
/// has at least five fields, a recognized level token in the third, and a
/// `0x`-prefixed hex code point in the fifth that denotes a Unicode
/// scalar value; any malformed row yields nothing.
pub open spec fn line_to_kanji(line: Seq<char>) -> Option<KanjiView> {
    let fields = crate::strutil::split_on(line, ',');
    if fields.len() < 5 {
        None
    } else {
        match difficulty_of(fields[2]) {
            None => None,
            Some(d) => {
                let uf = fields[4];
                if !(uf.len() >= 2 && uf[0] == '0' && uf[1] == 'x') {
                    None
                } else {
                    let hex = uf.skip(2);
                    if is_hex_seq(hex) && is_scalar_value(hex_val(hex)) {
                        Some(
                            KanjiView {
                                unicode: hex,
                                yomi: fields[1],
                                codepoint: hex_val(hex) as u32,
                                difficulty: d,
                            },
                        )
                    } else {
                        None
                    }
                }
            },
        }
    }
}

/// A dataset line without its trailing carriage return, if it has one.
pub open spec fn strip_cr(line: Seq<char>) -> Seq<char> {
    if line.len() > 0 && line.last() == '\r' {
        line.drop_last()
    } else {
        line
    }
}

/// The catalog entries of a run of dataset lines, malformed rows skipped.
pub open spec fn lines_to_kanjis(lines: Seq<Seq<char>>) -> Seq<KanjiView>
    decreases lines.len(),
{
    if lines.len() == 0 {
        Seq::empty()
    } else {
        let rest = lines_to_kanjis(lines.drop_first());
        match line_to_kanji(strip_cr(lines[0])) {
            Some(k) => seq![k] + rest,
            None => rest,
        }
    }
}

/// The catalog a whole dataset text denotes.
pub open spec fn csv_kanjis(s: Seq<char>) -> Seq<KanjiView> {
    lines_to_kanjis(crate::strutil::split_on(s, '\n'))
}

/// Relies on `char::from_u32` of core: `Some` exactly on Unicode scalar
/// values, returning the char with that code point.
pub assume_specification[ char::from_u32 ](v: u32) -> (r: Option<char>)
    ensures
        r is Some <==> is_scalar_value(v as int),
        r matches Some(c) ==> c as u32 == v,
;

/// With hex digits in front, a number only grows.
proof fn lemma_hex_val_mono(s: Seq<char>, k: int)
    requires
        0 <= k <= s.len(),
        forall|i: int| 0 <= i < s.len() ==> hex_digit_value(s[i]) >= 0,
    ensures
        hex_val(s) >= hex_val(s.take(k)) >= 0,
    decreases s.len(),
{
    if s.len() == 0 {
        assert(s.take(k) =~= s);
    } else if k == s.len() {
        assert(s.take(k) =~= s);
        lemma_hex_val_mono(s.drop_last(), s.len() - 1);
        assert(s.drop_last().take(s.len() - 1) =~= s.drop_last());
    } else {
        lemma_hex_val_mono(s.drop_last(), k);
        assert(s.drop_last().take(k) =~= s.take(k));
    }
}

/// Value of a hex digit character, or -1 for any other character.
pub(crate) fn hex_digit(c: char) -> (r: i32)
    ensures
        r as int == hex_digit_value(c),
{
    let u = c as u32;
    if u >= 48 && u <= 57 {
        (u - 48) as i32
    } else if u >= 97 && u <= 102 {
        (10 + u - 97) as i32
    } else if u >= 65 && u <= 70 {
        (10 + u - 65) as i32
    } else {
        -1
    }
}

/// Reads a big-endian hex numeral as a code point candidate: `Some`
/// exactly when the digits are well formed and the value is at most
/// 0x10FFFF.
fn parse_codepoint(hex: &Vec<char>) -> (r: Option<u32>)
    ensures
        r is Some <==> is_hex_seq(hex@) && hex_val(hex@) <= 0x10FFFF,
        r matches Some(v) ==> v as int == hex_val(hex@),
{
    if hex.len() == 0 {
        return None;
    }
    let mut acc: u32 = 0;
    let mut i: usize = 0;
    while i < hex.len()
        invariant
            0 < hex@.len(),
            i <= hex@.len(),
            forall|j: int| 0 <= j < i ==> hex_digit_value(hex@[j]) >= 0,
            acc as int == hex_val(hex@.take(i as int)),
            acc <= 0x10FFFF,
        decreases hex@.len() - i,
    {
        let d = hex_digit(hex[i]);
        if d < 0 {
            return None;
        }
        proof {
            assert(hex@.take(i + 1).drop_last() =~= hex@.take(i as int));
            assert(hex@.take(i + 1).last() == hex@[i as int]);
        }
        let next: u32 = acc * 16 + (d as u32);
        if next > 0x10FFFF {
            proof {
                assert(hex_val(hex@.take(i + 1)) > 0x10FFFF);
                if is_hex_seq(hex@) {
                    lemma_hex_val_mono(hex@, i + 1);
                }
            }
            return None;
        }
        acc = next;
        i += 1;
    }
    proof {
        assert(hex@.take(hex@.len() as int) =~= hex@);
    }
    Some(acc)
}

/// Copies `v[from..to]` out as its own vector.
fn subvec(v: &Vec<char>, from: usize, to: usize) -> (r: Vec<char>)
    requires
        from <= to <= v@.len(),
    ensures
        r@ == v@.subrange(from as int, to as int),
{
    let mut r: Vec<char> = Vec::new();
    let mut i: usize = from;
    while i < to
        invariant
            from <= i <= to <= v@.len(),
            r@ == v@.subrange(from as int, i as int),
        decreases to - i,
    {
        r.push(v[i]);
        i += 1;
        proof {
            assert(r@ =~= v@.subrange(from as int, i as int));
        }
    }
    r
}

/// Builds the catalog from the bundled dataset text: one entry per well
/// formed row, in row order, malformed rows skipped rather than failing
/// the load.
pub fn load_kanjis(csv: &str) -> (r: Vec<Kanji>)
    ensures
        kanjis_view(r@) == csv_kanjis(csv@),
{
    let chars = crate::strutil::str_to_chars(csv);
    let lines = crate::strutil::split_chars(&chars, '\n');
    let ghost lv = crate::strutil::pieces_view(lines@);
    let mut r: Vec<Kanji> = Vec::new();
    let mut i: usize = 0;
    proof {
        assert(lv.skip(0) =~= lv);
        assert(kanjis_view(Seq::<Kanji>::empty()) =~= Seq::<KanjiView>::empty());
    }
    while i < lines.len()
        invariant
            i <= lines@.len(),
            lv == crate::strutil::pieces_view(lines@),
            csv_kanjis(csv@) =~~= kanjis_view(r@) + lines_to_kanjis(lv.skip(i as int)),
        decreases lines@.len() - i,
    {
        proof {
            assert(lv.skip(i as int).drop_first() =~= lv.skip(i + 1));
            assert(lv.skip(i as int)[0] == lines@[i as int]@);
        }
        let line = &lines[i];
        let m = if line.len() > 0 && line[line.len() - 1] == '\r' {
            line.len() - 1
        } else {
            line.len()
        };
        let stripped = subvec(line, 0, m);
        proof {
            assert(stripped@ =~= strip_cr(lv.skip(i as int)[0]));
        }
        match parse_line(&stripped) {
            Some(k) => {
                proof {
                    assert(line_to_kanji(stripped@) == Some(k@));
                    assert(kanjis_view(r@.push(k)) =~= kanjis_view(r@) + seq![k@]);
                }
                r.push(k);
            },
            None => {
            },
        }
        i += 1;
    }
    proof {
        assert(lv.skip(lv.len() as int) =~= Seq::<Seq<char>>::empty());
    }
    r
}

/// Reads one dataset row, already split from the text and stripped of a
/// trailing carriage return, as `line_to_kanji` describes.
fn parse_line(line: &Vec<char>) -> (r: Option<Kanji>)
    ensures
        match r {
            Some(k) => line_to_kanji(line@) == Some(k@),
            None => line_to_kanji(line@) is None,
        },
{
    let fields = crate::strutil::split_chars(line, ',');
    let ghost fv = crate::strutil::pieces_view(fields@);
    if fields.len() < 5 {
        return None;
    }
    let level = &fields[2];
    let difficulty = if level.len() == 1 && level[0] == '1' {
        KanjiDifficulty::Easy
    } else if level.len() == 1 && level[0] == '2' {
        KanjiDifficulty::Medium
    } else if level.len() == 1 && level[0] == '3' {
        KanjiDifficulty::Hard
    } else {
        proof {
            assert(fv[2] != seq!['1'] && fv[2] != seq!['2'] && fv[2] != seq!['3']) by {
                if fv[2] == seq!['1'] || fv[2] == seq!['2'] || fv[2] == seq!['3'] {
                    assert(fv[2].len() == 1);
                }
            }
        }
        return None;
    };
    proof {
        assert(difficulty_of(fv[2]) == Some(difficulty)) by {
            assert(fv[2] =~= seq![fv[2][0]]);
        }
    }
    let uf = &fields[4];
    if !(uf.len() >= 2 && uf[0] == '0' && uf[1] == 'x') {
        return None;
    }
    let hex = subvec(uf, 2, uf.len());
    proof {
        assert(hex@ =~= fv[4].skip(2));
    }
    let v = match parse_codepoint(&hex) {
        Some(v) => v,
        None => {
            return None;
        },
    };
    match char::from_u32(v) {
        Some(c) => {
            let k = Kanji {
                unicode: crate::strutil::chars_to_string(&hex),
                yomi: crate::strutil::chars_to_string(&fields[1]),
                kanji: c,
                difficulty,
            };
            Some(k)
        },
        None => None,
    }
}

} // verus!
