//! Small string helpers shared by the rest of the library: character-wise
//! string equality, decimal rendering of integers, and counted plural
//! phrases.
use vstd::prelude::*;
use vstd::string::StrSliceExecFns;
use vstd::string::StringExecFns;

verus! {

/// True exactly when the two strings hold the same characters.
pub fn str_eq(a: &str, b: &str) -> (r: bool)
    ensures
        r == (a@ == b@),
{
    let alen = a.unicode_len();
    let blen = b.unicode_len();
    if alen != blen {
        return false;
    }
    let mut i: usize = 0;
    while i < alen
        invariant
            alen == a@.len(),
            blen == b@.len(),
            alen == blen,
            0 <= i <= alen,
            forall|j: int| 0 <= j < i ==> a@[j] == b@[j],
        decreases alen - i,
    {
        if a.get_char(i) != b.get_char(i) {
            return false;
        }
        i = i + 1;
    }
    proof {
        assert(a@ =~= b@);
    }
    true
}

/// Relies on std's String::push: appends the character to the end of the string.
#[verifier::external_body]
pub fn push_char(s: &mut String, c: char)
    ensures
        final(s)@ == old(s)@.push(c),
{
    s.push(c);
}

/// The character for a single decimal digit.
pub open spec fn dec_digit(d: nat) -> char
    recommends
        d < 10,
{
    ((48 + d) as u8) as char
}

/// The decimal representation of a natural number, most significant digit first.
pub open spec fn dec_seq(n: nat) -> Seq<char>
    decreases n,
{
    if n < 10 {
        seq![dec_digit(n)]
    } else {
        dec_seq(n / 10).push(dec_digit(n % 10))
    }
}

/// Renders a number in decimal notation.
pub fn u64_to_dec(n: u64) -> (r: String)
    ensures
        r@ == dec_seq(n as nat),
    decreases n,
{
    if n < 10 {
        let mut s = String::new();
        push_char(&mut s, (48 + n as u8) as char);
        proof {
            assert(s@ =~= dec_seq(n as nat));
        }
        s
    } else {
        let mut s = u64_to_dec(n / 10);
        push_char(&mut s, (48 + (n % 10) as u8) as char);
        s
    }
}

/// What Inflector's pluralization returns for this word.
pub uninterp spec fn plural_of(w: Seq<char>) -> Seq<char>;

/// Relies on Inflector's to_plural: the English plural of a word, a function
/// of the characters alone.
#[verifier::external_body]
fn to_plural_string(w: &str) -> (r: String)
    ensures
        r@ == plural_of(w@),
{
    inflector::string::pluralize::to_plural(w)
}

/// A counted phrase: `1 word` for a count of one, otherwise the count
/// followed by the word's English plural.
pub fn pluralize(count: usize, word: &str) -> (r: String)
    ensures
        count == 1 ==> r@ == "1 "@ + word@,
        count != 1 ==> r@ == dec_seq(count as nat) + " "@ + plural_of(word@),
{
    if count == 1 {
        String::from_str("1 ").concat(word)
    } else {
        let p = to_plural_string(word);
        u64_to_dec(count as u64).concat(" ").concat(p.as_str())
    }
}

} // verus!
