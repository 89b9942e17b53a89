use vstd::prelude::*;

verus! {

/// Collects the characters of a string slice into a vector, so that the
/// parsing code can work positionally over plain `char` values.
pub fn str_to_chars(s: &str) -> (r: Vec<char>)
    ensures
        r@ == s@,
{
    let n = s.unicode_len();
    let mut r: Vec<char> = Vec::new();
    let mut i: usize = 0;
    while i < n
        invariant
            i <= n,
            n == s@.len(),
            r@ == s@.take(i as int),
        decreases n - i,
    {
        r.push(s.get_char(i));
        i += 1;
        proof {
            assert(r@ =~= s@.take(i as int));
        }
    }
    proof {
        assert(r@ =~= s@);
    }
    r
}

/// Relies on std's `FromIterator<char> for String`: collecting chars
/// builds the string of exactly those chars in order.
#[verifier::external_body]
pub fn chars_to_string(v: &Vec<char>) -> (r: String)
    ensures
        r@ == v@,
{
    v.iter().collect()
}

/// Splitting a character sequence on a separator: the pieces between the
/// separator occurrences, in order. There is always at least one piece;
/// a separator at the edge or two adjacent ones yield empty pieces.
pub open spec fn split_on(s: Seq<char>, sep: char) -> Seq<Seq<char>>
    decreases s.len(),
{
    if s.len() == 0 {
        seq![Seq::<char>::empty()]
    } else if s[0] == sep {
        seq![Seq::<char>::empty()] + split_on(s.drop_first(), sep)
    } else {
        let rest = split_on(s.drop_first(), sep);
        seq![seq![s[0]] + rest[0]] + rest.drop_first()
    }
}

pub proof fn lemma_split_on_len(s: Seq<char>, sep: char)
    ensures
        split_on(s, sep).len() >= 1,
    decreases s.len(),
{
    if s.len() != 0 {
        lemma_split_on_len(s.drop_first(), sep);
    }
}

/// A sequence without the separator is a single piece.
pub proof fn lemma_split_on_no_sep(s: Seq<char>, sep: char)
    requires
        forall|i: int| 0 <= i < s.len() ==> s[i] != sep,
    ensures
        split_on(s, sep) =~~= seq![s],
    decreases s.len(),
{
    if s.len() != 0 {
        lemma_split_on_no_sep(s.drop_first(), sep);
        assert(seq![s[0]] + s.drop_first() =~= s);
    }
}

/// Splitting after the first separator: a separator-free prefix becomes
/// the first piece and the rest splits on its own.
pub proof fn lemma_split_on_concat(a: Seq<char>, b: Seq<char>, sep: char)
    requires
        forall|i: int| 0 <= i < a.len() ==> a[i] != sep,
    ensures
        split_on(a + seq![sep] + b, sep) =~~= seq![a] + split_on(b, sep),
    decreases a.len(),
{
    let s = a + seq![sep] + b;
    if a.len() == 0 {
        assert(s =~= seq![sep] + b);
        assert(s[0] == sep);
        assert(s.drop_first() =~= b);
    } else {
        lemma_split_on_concat(a.drop_first(), b, sep);
        assert(s[0] == a[0]);
        assert(s.drop_first() =~= a.drop_first() + seq![sep] + b);
        lemma_split_on_len(b, sep);
        let rest = split_on(s.drop_first(), sep);
        assert(rest =~~= seq![a.drop_first()] + split_on(b, sep));
        assert(seq![s[0]] + rest[0] =~= a);
    }
}

/// The pieces of a piece vector, each as a character sequence.
pub open spec fn pieces_view(r: Seq<Vec<char>>) -> Seq<Seq<char>> {
    r.map_values(|p: Vec<char>| p@)
}

/// Splits `s` on `sep`, yielding the pieces `split_on` describes.
pub fn split_chars(s: &Vec<char>, sep: char) -> (r: Vec<Vec<char>>)
    ensures
        pieces_view(r@) == split_on(s@, sep),
{
    let ghost whole = s@;
    let mut r: Vec<Vec<char>> = Vec::new();
    let mut piece: Vec<char> = Vec::new();
    let ghost mut start: int = 0;
    let mut i: usize = 0;
    proof {
        assert(whole.skip(0) =~= whole);
        assert(pieces_view(Seq::<Vec<char>>::empty()) =~= Seq::<Seq<char>>::empty());
    }
    while i < s.len()
        invariant
            0 <= start <= i <= s@.len(),
            s@ == whole,
            piece@ == whole.subrange(start, i as int),
            forall|j: int| start <= j < i ==> whole[j] != sep,
            split_on(whole, sep) =~~= pieces_view(r@) + split_on(whole.skip(start), sep),
        decreases s@.len() - i,
    {
        let c = s[i];
        if c == sep {
            proof {
                let tail = whole.skip(start);
                let after = whole.skip(i + 1);
                assert(tail =~= piece@ + seq![sep] + after);
                lemma_split_on_concat(piece@, after, sep);
                assert(pieces_view(r@.push(piece)) =~= pieces_view(r@) + seq![piece@]);
            }
            r.push(piece);
            piece = Vec::new();
            i += 1;
            proof {
                start = i as int;
                assert(piece@ =~= whole.subrange(start, i as int));
            }
        } else {
            piece.push(c);
            i += 1;
            proof {
                assert(piece@ =~= whole.subrange(start, i as int));
            }
        }
    }
    proof {
        let tail = whole.skip(start);
        assert(tail =~= piece@);
        lemma_split_on_no_sep(tail, sep);
        assert(pieces_view(r@.push(piece)) =~= pieces_view(r@) + seq![piece@]);
    }
    r.push(piece);
    r
}

} // verus!
