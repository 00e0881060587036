//! Splitting a text at a separator.

use vstd::prelude::*;

verus! {

/// A list of texts as a sequence of character sequences.
pub open spec fn spec_texts(texts: Seq<String>) -> Seq<Seq<char>> {
    texts.map_values(|t: String| t@)
}

/// Whether `text` is among the texts.
pub fn contains_text(texts: &Vec<String>, text: &String) -> (found: bool)
    ensures
        found == spec_texts(texts@).contains(text@),
{
    let mut i: usize = 0;
    while i < texts.len()
        invariant
            i <= texts.len(),
            forall|k: int| 0 <= k < i ==> spec_texts(texts@)[k] != text@,
        decreases texts.len() - i,
    {
        if texts[i] == *text {
            proof {
                assert(spec_texts(texts@)[i as int] == text@);
            }
            return true;
        }
        i += 1;
    }
    false
}

/// Whether `sep` stands in `s` at `at`.
pub open spec fn spec_occurs_at(s: Seq<char>, sep: Seq<char>, at: int) -> bool {
    0 <= at && at + sep.len() <= s.len() && s.subrange(at, at + sep.len()) == sep
}

/// The first place at or after `from` at which `sep` stands in `s`.
pub open spec fn spec_find(s: Seq<char>, sep: Seq<char>, from: int) -> Option<int>
    decreases s.len() + 1 - from,
{
    if 0 <= from && from + sep.len() <= s.len() {
        if spec_occurs_at(s, sep, from) {
            Some(from)
        } else {
            spec_find(s, sep, from + 1)
        }
    } else {
        None
    }
}

/// Piece `n` of what is left of `s` from `from` on, split at each
/// occurrence of the non-empty text `sep`. Occurrences are taken from left
/// to right and do not overlap; the last piece runs to the end of `s`.
pub open spec fn spec_piece_from(s: Seq<char>, sep: Seq<char>, from: int, n: nat) -> Option<
    Seq<char>,
>
    decreases n,
{
    if sep.len() == 0 || from < 0 || from > s.len() {
        None
    } else {
        match spec_find(s, sep, from) {
            None => if n == 0 {
                Some(s.subrange(from, s.len() as int))
            } else {
                None
            },
            Some(at) => if n == 0 {
                Some(s.subrange(from, at))
            } else {
                spec_piece_from(s, sep, at + sep.len(), (n - 1) as nat)
            },
        }
    }
}

/// Piece `n` of `s` split between every two characters, before the first
/// and after the last: an empty piece, each character, an empty piece.
pub open spec fn spec_piece_between_chars(s: Seq<char>, n: nat) -> Option<Seq<char>> {
    if n == 0 || n == s.len() + 1 {
        Some(Seq::empty())
    } else if n <= s.len() {
        Some(s.subrange(n - 1, n as int))
    } else {
        None
    }
}

/// Piece `n`, counted from zero, of `s` split at `sep`; `None` where the
/// split has fewer pieces. An empty `sep` splits between every two
/// characters.
pub open spec fn spec_split_piece(s: Seq<char>, sep: Seq<char>, n: nat) -> Option<Seq<char>> {
    if sep.len() == 0 {
        spec_piece_between_chars(s, n)
    } else {
        spec_piece_from(s, sep, 0, n)
    }
}

/// The characters of a text.
pub fn chars_of(s: &str) -> (chars: Vec<char>)
    ensures
        chars@ == s@,
{
    let len: usize = s.unicode_len();
    let mut chars: Vec<char> = Vec::new();
    let mut i: usize = 0;
    while i < len
        invariant
            i <= len,
            len == s@.len(),
            chars@ == s@.subrange(0, i as int),
        decreases len - i,
    {
        chars.push(s.get_char(i));
        proof {
            assert(chars@ =~= s@.subrange(0, i + 1));
        }
        i += 1;
    }
    proof {
        assert(s@.subrange(0, len as int) =~= s@);
    }
    chars
}

/// Whether `sep` stands in `s` at `at`.
pub fn occurs_at(s: &Vec<char>, sep: &Vec<char>, at: usize) -> (r: bool)
    requires
        at + sep.len() <= s.len(),
    ensures
        r == spec_occurs_at(s@, sep@, at as int),
{
    let mut k: usize = 0;
    while k < sep.len()
        invariant
            k <= sep.len(),
            at + sep.len() <= s.len(),
            forall|j: int| 0 <= j < k ==> s[at + j] == sep[j],
        decreases sep.len() - k,
    {
        if s[at + k] != sep[k] {
            proof {
                assert(s@.subrange(at as int, at + sep.len())[k as int] == s[at + k]);
            }
            return false;
        }
        k += 1;
    }
    proof {
        assert(s@.subrange(at as int, at + sep.len()) =~= sep@);
    }
    true
}

/// The first place at or after `from` at which `sep` stands in `s`.
pub fn find(s: &Vec<char>, sep: &Vec<char>, from: usize) -> (r: Option<usize>)
    ensures
        match r {
            Some(at) => spec_find(s@, sep@, from as int) == Some(at as int) && from <= at && at
                + sep.len() <= s.len(),
            None => spec_find(s@, sep@, from as int).is_none(),
        },
{
    if sep.len() > s.len() {
        return None;
    }
    let last: usize = s.len() - sep.len();
    let mut at: usize = from;
    while at < last
        invariant
            from <= at,
            last == s.len() - sep.len(),
            sep.len() <= s.len(),
            spec_find(s@, sep@, from as int) == spec_find(s@, sep@, at as int),
        decreases last - at,
    {
        if occurs_at(s, sep, at) {
            return Some(at);
        }
        at += 1;
    }
    if at == last && occurs_at(s, sep, at) {
        return Some(at);
    }
    proof {
        if at == last {
            assert(spec_find(s@, sep@, at + 1).is_none());
        }
    }
    None
}

/// Where piece `n` of `s` split at `sep` begins and ends; `None` where the
/// split has fewer pieces.
pub fn split_piece(s: &Vec<char>, sep: &Vec<char>, n: usize) -> (r: Option<(usize, usize)>)
    ensures
        match r {
            Some((from, to)) => from <= to <= s.len() && spec_split_piece(s@, sep@, n as nat)
                == Some(s@.subrange(from as int, to as int)),
            None => spec_split_piece(s@, sep@, n as nat).is_none(),
        },
{
    if sep.len() == 0 {
        if n == 0 {
            proof {
                assert(s@.subrange(0, 0) =~= Seq::<char>::empty());
            }
            Some((0, 0))
        } else if n - 1 < s.len() {
            Some((n - 1, n))
        } else if n - 1 == s.len() {
            proof {
                assert(s@.subrange(s.len() as int, s.len() as int) =~= Seq::<char>::empty());
            }
            Some((s.len(), s.len()))
        } else {
            None
        }
    } else {
        let mut from: usize = 0;
        let mut left: usize = n;
        loop
            invariant
                sep.len() > 0,
                from <= s.len(),
                left <= n,
                spec_split_piece(s@, sep@, n as nat) == spec_piece_from(
                    s@,
                    sep@,
                    from as int,
                    left as nat,
                ),
            decreases left,
        {
            match find(s, sep, from) {
                None => {
                    if left == 0 {
                        return Some((from, s.len()));
                    } else {
                        return None;
                    }
                },
                Some(at) => {
                    if left == 0 {
                        return Some((from, at));
                    }
                    from = at + sep.len();
                    left -= 1;
                },
            }
        }
    }
}

} // verus!
