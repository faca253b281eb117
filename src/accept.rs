//! Reading the `Accept-Encoding` request headers: does the client take gzip?

use vstd::prelude::*;
use crate::path::{bytes_between, pieces, split_bytes, views};

verus! {

/// The byte `,`, which separates the entries of a header.
pub const COMMA: u8 = 44;
/// The byte `;`, which starts the parameter of an entry.
pub const SEMICOLON: u8 = 59;
/// The byte `=`.
pub const EQUALS: u8 = 61;
/// The space byte.
pub const SPACE: u8 = 32;
/// The horizontal tab byte.
pub const TAB: u8 = 9;
/// The byte `~`, the last visible ASCII character.
pub const TILDE: u8 = 126;

/// The space and tab bytes, the only white space a header can hold.
pub open spec fn is_space(b: u8) -> bool {
    b == SPACE || b == TAB
}

/// `s` without its leading white space.
pub open spec fn trim_start(s: Seq<u8>) -> Seq<u8>
    decreases s.len(),
{
    if s.len() > 0 && is_space(s[0]) {
        trim_start(s.subrange(1, s.len() as int))
    } else {
        s
    }
}

/// `s` without its trailing white space.
pub open spec fn trim_end(s: Seq<u8>) -> Seq<u8>
    decreases s.len(),
{
    if s.len() > 0 && is_space(s.last()) {
        trim_end(s.drop_last())
    } else {
        s
    }
}

/// `s` without white space at either end.
pub open spec fn trimmed(s: Seq<u8>) -> Seq<u8> {
    trim_end(trim_start(s))
}

/// A header value that reads as text: visible ASCII and tabs only.
pub open spec fn is_text(h: Seq<u8>) -> bool {
    forall|k: int| 0 <= k < h.len() ==> (SPACE <= #[trigger] h[k] <= TILDE) || h[k] == TAB
}

/// The ASCII lower-case form of `b`.
pub open spec fn ascii_lower(b: u8) -> u8 {
    if 65 <= b <= 90 {
        (b + 32) as u8
    } else {
        b
    }
}

/// Does `g` spell `word`, ignoring ASCII case? (`word` is lower case.)
pub open spec fn spells(g: Seq<u8>, word: Seq<u8>) -> bool {
    g.len() == word.len() && forall|k: int| 0 <= k < g.len() ==> ascii_lower(#[trigger] g[k]) == word[k]
}

/// The lower-case coding name `gzip`.
pub open spec fn gzip_word() -> Seq<u8> {
    seq![103u8, 122u8, 105u8, 112u8]
}

/// The lower-case coding name `x-gzip`.
pub open spec fn x_gzip_word() -> Seq<u8> {
    seq![120u8, 45u8, 103u8, 122u8, 105u8, 112u8]
}

/// A coding name that stands for gzip.
pub open spec fn is_gzip_name(g: Seq<u8>) -> bool {
    spells(g, gzip_word()) || spells(g, x_gzip_word())
}

/// Is `b` an ASCII decimal digit?
pub open spec fn is_digit(b: u8) -> bool {
    48 <= b <= 57
}

/// A weight parameter `q=` (or `Q=`) whose value is a valid quality (`0` or `1`,
/// with at most three decimals, at most `1`) above zero.
pub open spec fn positive_q(p: Seq<u8>) -> bool {
    &&& p.len() >= 3 && p.len() != 4 && p.len() <= 7
    &&& (p[0] == 113 || p[0] == 81) && p[1] == EQUALS
    &&& p.len() > 3 ==> p[3] == 46
    &&& forall|k: int| 4 <= k < p.len() ==> is_digit(#[trigger] p[k]) && (p[2] == 49 ==> p[k] == 48)
    &&& p[2] == 49 || (p[2] == 48 && exists|k: int| 4 <= k < p.len() && #[trigger] p[k] != 48)
}

/// `j` is the position of the first `sep` in `e`, or its length if it holds none.
pub open spec fn cut_at(e: Seq<u8>, sep: u8, j: int) -> bool {
    &&& 0 <= j <= e.len()
    &&& forall|k: int| 0 <= k < j ==> #[trigger] e[k] != sep
    &&& j == e.len() || e[j] == sep
}

/// An entry of the header that accepts gzip: its name, before any `;`, is gzip,
/// and its weight, if it has one, is above zero.
pub open spec fn entry_accepts_gzip(e: Seq<u8>) -> bool {
    exists|j: int|
        cut_at(e, SEMICOLON, j) && is_gzip_name(trimmed(#[trigger] e.subrange(0, j))) && (j == e.len()
            || positive_q(trimmed(e.subrange(j + 1, e.len() as int))))
}

/// A header value with an entry that accepts gzip.
pub open spec fn header_accepts_gzip(h: Seq<u8>) -> bool {
    is_text(h) && exists|k: int|
        0 <= k < pieces(h, COMMA).len() && entry_accepts_gzip(#[trigger] pieces(h, COMMA)[k])
}

/// Do the client's `Accept-Encoding` headers accept gzip?
pub open spec fn gzip_accepted(hs: Seq<Seq<u8>>) -> bool {
    exists|i: int| 0 <= i < hs.len() && header_accepts_gzip(#[trigger] hs[i])
}

/// `s` without white space at either end.
pub fn trim(s: &[u8]) -> (r: Vec<u8>)
    ensures
        r@ == trimmed(s@),
{
    let mut i: usize = 0;
    assert(s@.subrange(0, s@.len() as int) =~= s@);
    while i < s.len() && (s[i] == SPACE || s[i] == TAB)
        invariant
            i <= s@.len(),
            trim_start(s@) == trim_start(s@.subrange(i as int, s@.len() as int)),
        decreases s@.len() - i,
    {
        assert(s@.subrange(i as int, s@.len() as int).subrange(1, s@.len() - i) =~= s@.subrange(
            i + 1,
            s@.len() as int,
        ));
        i = i + 1;
    }
    let ghost t = s@.subrange(i as int, s@.len() as int);
    assert(trim_start(s@) == t);
    let mut j: usize = s.len();
    assert(t.subrange(0, t.len() as int) =~= t);
    while j > i && (s[j - 1] == SPACE || s[j - 1] == TAB)
        invariant
            i <= j <= s@.len(),
            t == s@.subrange(i as int, s@.len() as int),
            trim_end(t) == trim_end(s@.subrange(i as int, j as int)),
        decreases j,
    {
        assert(s@.subrange(i as int, j as int).drop_last() =~= s@.subrange(i as int, j - 1));
        j = j - 1;
    }
    bytes_between(s, i, j)
}

fn lower(b: u8) -> (r: u8)
    ensures
        r == ascii_lower(b),
{
    if 65 <= b && b <= 90 {
        b + 32
    } else {
        b
    }
}

fn spells_word(g: &[u8], word: &[u8]) -> (r: bool)
    ensures
        r == spells(g@, word@),
{
    if g.len() != word.len() {
        return false;
    }
    let mut k: usize = 0;
    while k < g.len()
        invariant
            g@.len() == word@.len(),
            k <= g@.len(),
            forall|m: int| 0 <= m < k ==> ascii_lower(#[trigger] g@[m]) == word@[m],
        decreases g@.len() - k,
    {
        if lower(g[k]) != word[k] {
            return false;
        }
        k = k + 1;
    }
    true
}

fn gzip_name(g: &[u8]) -> (r: bool)
    ensures
        r == is_gzip_name(g@),
{
    let gzip: [u8; 4] = [103, 122, 105, 112];
    let x_gzip: [u8; 6] = [120, 45, 103, 122, 105, 112];
    assert(gzip@ =~= gzip_word());
    assert(x_gzip@ =~= x_gzip_word());
    spells_word(g, gzip.as_slice()) || spells_word(g, x_gzip.as_slice())
}

fn weight_positive(p: &[u8]) -> (r: bool)
    ensures
        r == positive_q(p@),
{
    if p.len() < 3 || p.len() == 4 || p.len() > 7 {
        return false;
    }
    if !((p[0] == 113 || p[0] == 81) && p[1] == EQUALS) {
        return false;
    }
    if p.len() > 3 && p[3] != 46 {
        return false;
    }
    if p[2] != 48 && p[2] != 49 {
        return false;
    }
    let mut nonzero = false;
    let mut k: usize = 4;
    while k < p.len()
        invariant
            4 <= k <= p@.len() || (k == 4 && p@.len() == 3),
            p@.len() >= 3,
            forall|m: int| 4 <= m < k ==> is_digit(#[trigger] p@[m]) && (p@[2] == 49 ==> p@[m] == 48),
            nonzero == exists|m: int| 4 <= m < k && #[trigger] p@[m] != 48,
        decreases p@.len() - k,
    {
        if !(48 <= p[k] && p[k] <= 57) || (p[2] == 49 && p[k] != 48) {
            return false;
        }
        if p[k] != 48 {
            nonzero = true;
        }
        k = k + 1;
    }
    p[2] == 49 || nonzero
}

fn entry_gzip(e: &[u8]) -> (r: bool)
    ensures
        r == entry_accepts_gzip(e@),
{
    let mut j: usize = 0;
    while j < e.len() && e[j] != SEMICOLON
        invariant
            j <= e@.len(),
            forall|k: int| 0 <= k < j ==> #[trigger] e@[k] != SEMICOLON,
        decreases e@.len() - j,
    {
        j = j + 1;
    }
    assert(cut_at(e@, SEMICOLON, j as int));
    assert forall|i: int| cut_at(e@, SEMICOLON, i) implies i == j by {
        if i < j {
            assert(e@[i] != SEMICOLON);
        }
        if i > j {
            assert(e@[j as int] != SEMICOLON);
        }
    }
    let name = trim(&bytes_between(e, 0, j));
    let r = if !gzip_name(name.as_slice()) {
        false
    } else if j == e.len() {
        true
    } else {
        let weight = trim(&bytes_between(e, j + 1, e.len()));
        weight_positive(weight.as_slice())
    };
    r
}

fn header_gzip(h: &[u8]) -> (r: bool)
    ensures
        r == header_accepts_gzip(h@),
{
    let mut k: usize = 0;
    while k < h.len()
        invariant
            k <= h@.len(),
            forall|m: int| 0 <= m < k ==> (SPACE <= #[trigger] h@[m] <= TILDE) || h@[m] == TAB,
        decreases h@.len() - k,
    {
        if !((SPACE <= h[k] && h[k] <= TILDE) || h[k] == TAB) {
            return false;
        }
        k = k + 1;
    }
    assert(is_text(h@));
    let entries = split_bytes(h, COMMA);
    let mut i: usize = 0;
    while i < entries.len()
        invariant
            i <= entries@.len(),
            views(entries@) == pieces(h@, COMMA),
            is_text(h@),
            forall|m: int| 0 <= m < i ==> !entry_accepts_gzip(#[trigger] pieces(h@, COMMA)[m]),
        decreases entries@.len() - i,
    {
        assert(views(entries@)[i as int] == entries@[i as int]@);
        if entry_gzip(entries[i].as_slice()) {
            assert(is_text(h@));
            assert(entry_accepts_gzip(pieces(h@, COMMA)[i as int]));
            return true;
        }
        i = i + 1;
    }
    false
}

/// Does any of the client's `Accept-Encoding` header values accept gzip?
pub fn accepts_gzip(headers: &Vec<Vec<u8>>) -> (r: bool)
    ensures
        r == gzip_accepted(views(headers@)),
{
    let mut i: usize = 0;
    while i < headers.len()
        invariant
            i <= headers@.len(),
            forall|m: int| 0 <= m < i ==> !header_accepts_gzip(#[trigger] views(headers@)[m]),
        decreases headers@.len() - i,
    {
        if header_gzip(headers[i].as_slice()) {
            assert(views(headers@)[i as int] == headers@[i as int]@);
            return true;
        }
        assert(views(headers@)[i as int] == headers@[i as int]@);
        i = i + 1;
    }
    false
}

} // verus!
