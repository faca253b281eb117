//! Turning the part of a request path below a mount into a file path under the
//! mount's root, without ever leaving that root.

use vstd::prelude::*;

verus! {

/// The byte `/`, which separates segments.
pub const SLASH: u8 = 47;
/// The byte `.`.
pub const DOT: u8 = 46;
/// The byte `%`, which starts an escape.
pub const PERCENT: u8 = 37;
pub const DIGIT_0: u8 = 48;
pub const DIGIT_9: u8 = 57;
pub const LOWER_A: u8 = 97;
pub const LOWER_F: u8 = 102;
pub const UPPER_A: u8 = 65;
pub const UPPER_F: u8 = 70;

/// Is `b` an ASCII hexadecimal digit?
pub open spec fn is_hex(b: u8) -> bool {
    (DIGIT_0 <= b && b <= DIGIT_9) || (LOWER_A <= b && b <= LOWER_F) || (UPPER_A <= b && b <= UPPER_F)
}

/// The value of a hexadecimal digit.
pub open spec fn hex_value(b: u8) -> u8 {
    if DIGIT_0 <= b && b <= DIGIT_9 {
        (b - DIGIT_0) as u8
    } else if LOWER_A <= b && b <= LOWER_F {
        (b - LOWER_A + 10) as u8
    } else {
        (b - UPPER_A + 10) as u8
    }
}

/// Percent-decoding: each `%XY` with two hex digits stands for the byte `0xXY`;
/// every other byte, a `%` without two digits after it included, stands for itself.
pub open spec fn decoded(s: Seq<u8>) -> Seq<u8>
    decreases s.len(),
{
    if s.len() == 0 {
        seq![]
    } else if s.len() >= 3 && s[0] == PERCENT && is_hex(s[1]) && is_hex(s[2]) {
        seq![(hex_value(s[1]) * 16 + hex_value(s[2])) as u8] + decoded(s.subrange(3, s.len() as int))
    } else {
        seq![s[0]] + decoded(s.subrange(1, s.len() as int))
    }
}

/// The pieces of `s` between the `sep` bytes, in order (one more than there are
/// `sep` bytes).
pub open spec fn pieces(s: Seq<u8>, sep: u8) -> Seq<Seq<u8>>
    decreases s.len(),
{
    if s.len() == 0 {
        seq![seq![]]
    } else {
        let p = pieces(s.drop_last(), sep);
        if s.last() == sep {
            p.push(seq![])
        } else {
            p.update(p.len() - 1, p.last().push(s.last()))
        }
    }
}

/// The segments of a path: the pieces between its slashes.
pub open spec fn split(s: Seq<u8>) -> Seq<Seq<u8>> {
    pieces(s, SLASH)
}

/// The contents of each vector of `v`.
pub open spec fn views(v: Seq<Vec<u8>>) -> Seq<Seq<u8>> {
    v.map_values(|x: Vec<u8>| x@)
}

/// Cuts `s` at each `sep` byte.
pub fn split_bytes(s: &[u8], sep: u8) -> (r: Vec<Vec<u8>>)
    ensures
        views(r@) == pieces(s@, sep),
{
    let mut done: Vec<Vec<u8>> = Vec::new();
    let mut cur: Vec<u8> = Vec::new();
    let mut i: usize = 0;
    assert(pieces(s@.subrange(0, 0), sep) =~= views(done@).push(cur@));
    while i < s.len()
        invariant
            i <= s@.len(),
            pieces(s@.subrange(0, i as int), sep) == views(done@).push(cur@),
        decreases s@.len() - i,
    {
        let b = s[i];
        proof {
            let t = s@.subrange(0, i + 1);
            assert(t.drop_last() =~= s@.subrange(0, i as int));
            assert(t.last() == b);
        }
        if b == sep {
            done.push(cur);
            cur = Vec::new();
        } else {
            cur.push(b);
        }
        i = i + 1;
        assert(pieces(s@.subrange(0, i as int), sep) =~= views(done@).push(cur@));
    }
    assert(s@.subrange(0, s@.len() as int) =~= s@);
    done.push(cur);
    assert(views(done@) =~= pieces(s@, sep));
    done
}

/// A segment that names nothing: empty (a doubled or leading slash) or `.`.
pub open spec fn is_blank(g: Seq<u8>) -> bool {
    g.len() == 0 || g == seq![DOT]
}

/// The segment that names the parent directory.
pub open spec fn is_parent(g: Seq<u8>) -> bool {
    g == seq![DOT, DOT]
}

/// The segments that are not blank, each written after a `/`.
pub open spec fn joined(segs: Seq<Seq<u8>>) -> Seq<u8>
    decreases segs.len(),
{
    if segs.len() == 0 {
        seq![]
    } else {
        let r = joined(segs.drop_last());
        if is_blank(segs.last()) {
            r
        } else {
            r + seq![SLASH] + segs.last()
        }
    }
}

/// Does some segment name a parent directory?
pub open spec fn climbs(segs: Seq<Seq<u8>>) -> bool {
    exists|k: int| 0 <= k < segs.len() && is_parent(#[trigger] segs[k])
}

/// The file that `rest` names under `root`: `None` where a segment of the decoded
/// path names a parent directory.
pub open spec fn resolved(root: Seq<u8>, rest: Seq<u8>) -> Option<Seq<u8>> {
    let segs = split(decoded(rest));
    if climbs(segs) {
        None
    } else {
        Some(root + joined(segs))
    }
}

fn hex_digit(b: u8) -> (r: Option<u8>)
    ensures
        r == (if is_hex(b) { Some(hex_value(b)) } else { None::<u8> }),
{
    if DIGIT_0 <= b && b <= DIGIT_9 {
        Some(b - DIGIT_0)
    } else if LOWER_A <= b && b <= LOWER_F {
        Some(b - LOWER_A + 10)
    } else if UPPER_A <= b && b <= UPPER_F {
        Some(b - UPPER_A + 10)
    } else {
        None
    }
}

/// Percent-decodes `s`.
pub fn percent_decode(s: &[u8]) -> (r: Vec<u8>)
    ensures
        r@ == decoded(s@),
{
    let mut out: Vec<u8> = Vec::new();
    let mut i: usize = 0;
    assert(s@.subrange(0, s@.len() as int) =~= s@);
    assert(out@ + decoded(s@) =~= decoded(s@));
    while i < s.len()
        invariant
            i <= s@.len(),
            out@ + decoded(s@.subrange(i as int, s@.len() as int)) == decoded(s@),
        decreases s@.len() - i,
    {
        let ghost t = s@.subrange(i as int, s@.len() as int);
        let mut step: usize = 1;
        let mut byte: u8 = s[i];
        if s[i] == PERCENT && s.len() - i > 2 {
            match (hex_digit(s[i + 1]), hex_digit(s[i + 2])) {
                (Some(h), Some(l)) => {
                    assert(h < 16 && l < 16);
                    byte = h * 16 + l;
                    step = 3;
                },
                _ => {},
            }
        }
        proof {
            assert(t.subrange(step as int, t.len() as int) =~= s@.subrange(i + step, s@.len() as int));
            assert(decoded(t) == seq![byte] + decoded(t.subrange(step as int, t.len() as int)));
        }
        out.push(byte);
        i = i + step;
        assert(out@ + decoded(s@.subrange(i as int, s@.len() as int)) =~= decoded(s@));
    }
    proof {
        assert(s@.subrange(i as int, s@.len() as int) =~= seq![]);
    }
    assert(out@ =~= decoded(s@));
    out
}

/// A fresh vector holding the bytes of `s`.
pub fn copy_of(s: &[u8]) -> (r: Vec<u8>)
    ensures
        r@ == s@,
{
    let mut r: Vec<u8> = Vec::new();
    let mut i: usize = 0;
    while i < s.len()
        invariant
            i <= s@.len(),
            r@ == s@.subrange(0, i as int),
        decreases s@.len() - i,
    {
        r.push(s[i]);
        i = i + 1;
        assert(r@ =~= s@.subrange(0, i as int));
    }
    assert(s@.subrange(0, s@.len() as int) =~= s@);
    r
}

/// The bytes of `s` from `start` up to `end`.
pub fn bytes_between(s: &[u8], start: usize, end: usize) -> (r: Vec<u8>)
    requires
        start <= end <= s@.len(),
    ensures
        r@ == s@.subrange(start as int, end as int),
{
    let mut r: Vec<u8> = Vec::new();
    let mut i: usize = start;
    while i < end
        invariant
            start <= i <= end <= s@.len(),
            r@ == s@.subrange(start as int, i as int),
        decreases end - i,
    {
        r.push(s[i]);
        i = i + 1;
        assert(r@ =~= s@.subrange(start as int, i as int));
    }
    r
}

fn blank(g: &Vec<u8>) -> (r: bool)
    ensures
        r == is_blank(g@),
{
    if g.len() == 0 {
        true
    } else if g.len() == 1 && g[0] == DOT {
        assert(g@ =~= seq![DOT]);
        true
    } else {
        false
    }
}

fn parent(g: &Vec<u8>) -> (r: bool)
    ensures
        r == is_parent(g@),
{
    if g.len() == 2 && g[0] == DOT && g[1] == DOT {
        assert(g@ =~= seq![DOT, DOT]);
        true
    } else {
        false
    }
}

proof fn lemma_climbs_push(done: Seq<Seq<u8>>, g: Seq<u8>)
    ensures
        climbs(done.push(g)) == (climbs(done) || is_parent(g)),
{
    let all = done.push(g);
    if climbs(done) {
        let k = choose|k: int| 0 <= k < done.len() && is_parent(#[trigger] done[k]);
        assert(all[k] == done[k]);
    }
    if is_parent(g) {
        assert(all[done.len() as int] == g);
    }
    if climbs(all) {
        let k = choose|k: int| 0 <= k < all.len() && is_parent(#[trigger] all[k]);
        if k < done.len() {
            assert(done[k] == all[k]);
        }
    }
}

/// Closes the segment `cur`: writes it to `out` unless it is blank, and notes
/// whether it names a parent directory.
fn close_segment(out: &mut Vec<u8>, cur: &mut Vec<u8>, bad: &mut bool, Ghost(done): Ghost<Seq<Seq<u8>>>)
    requires
        old(out)@ == joined(done),
        *old(bad) == climbs(done),
    ensures
        final(out)@ == joined(done.push(old(cur)@)),
        *final(bad) == climbs(done.push(old(cur)@)),
        final(cur)@ == Seq::<u8>::empty(),
{
    let ghost g = cur@;
    proof {
        lemma_climbs_push(done, g);
        assert(done.push(g).drop_last() =~= done);
    }
    if parent(cur) {
        *bad = true;
    }
    if blank(cur) {
        *cur = Vec::new();
    } else {
        out.push(SLASH);
        out.append(cur);
    }
}

/// The file that `rest`, the part of a request path below a mount, names under
/// `root`; `None` where the decoded path climbs to a parent directory.
pub fn resolve(root: &[u8], rest: &[u8]) -> (r: Option<Vec<u8>>)
    ensures
        match r {
            Some(p) => resolved(root@, rest@) == Some(p@),
            None => resolved(root@, rest@) is None,
        },
{
    let d = percent_decode(rest);
    let mut out: Vec<u8> = Vec::new();
    let mut cur: Vec<u8> = Vec::new();
    let mut bad = false;
    let ghost mut done: Seq<Seq<u8>> = seq![];
    let mut i: usize = 0;
    assert(split(d@.subrange(0, 0)) =~= done.push(cur@));
    while i < d.len()
        invariant
            i <= d@.len(),
            split(d@.subrange(0, i as int)) == done.push(cur@),
            out@ == joined(done),
            bad == climbs(done),
        decreases d@.len() - i,
    {
        let b = d[i];
        let ghost prev = cur@;
        proof {
            let t = d@.subrange(0, i + 1);
            assert(t.drop_last() =~= d@.subrange(0, i as int));
            assert(t.last() == b);
        }
        if b == SLASH {
            close_segment(&mut out, &mut cur, &mut bad, Ghost(done));
            proof {
                done = done.push(prev);
            }
            assert(split(d@.subrange(0, i + 1)) =~= done.push(cur@));
        } else {
            cur.push(b);
            assert(split(d@.subrange(0, i + 1)) =~= done.push(cur@));
        }
        i = i + 1;
    }
    let ghost last = cur@;
    close_segment(&mut out, &mut cur, &mut bad, Ghost(done));
    assert(d@.subrange(0, d@.len() as int) =~= d@);
    assert(split(d@) == done.push(last));
    if bad {
        None
    } else {
        let mut p = copy_of(root);
        p.append(&mut out);
        Some(p)
    }
}

/// No piece holds the separator.
proof fn lemma_pieces_lack_sep(s: Seq<u8>, sep: u8)
    ensures
        pieces(s, sep).len() >= 1,
        forall|k: int| 0 <= k < pieces(s, sep).len() ==> !(#[trigger] pieces(s, sep)[k]).contains(sep),
    decreases s.len(),
{
    if s.len() == 0 {
        assert(pieces(s, sep) =~= seq![Seq::<u8>::empty()]);
        assert(!pieces(s, sep)[0].contains(sep));
    } else {
        lemma_pieces_lack_sep(s.drop_last(), sep);
        let p = pieces(s.drop_last(), sep);
        if s.last() != sep {
            let g = p.last().push(s.last());
            assert forall|i: int| 0 <= i < g.len() implies g[i] != sep by {
                if i < p.last().len() {
                    assert(g[i] == p.last()[i]);
                    assert(p[p.len() - 1] == p.last());
                }
            }
            assert(!g.contains(sep));
        }
        assert forall|k: int| 0 <= k < pieces(s, sep).len() implies !(#[trigger] pieces(s, sep)[k]).contains(sep) by {
            if k < p.len() - 1 || s.last() == sep && k < p.len() {
                assert(pieces(s, sep)[k] == p[k]);
            } else if s.last() == sep {
                assert(pieces(s, sep)[k] =~= Seq::<u8>::empty());
            } else {
                assert(pieces(s, sep)[k] == p.last().push(s.last()));
            }
        }
    }
}

/// Writing a slash and a segment without slashes adds one segment.
proof fn lemma_split_extend(r: Seq<u8>, g: Seq<u8>)
    requires
        !g.contains(SLASH),
    ensures
        split(r + seq![SLASH] + g) == split(r).push(g),
    decreases g.len(),
{
    let s = r + seq![SLASH] + g;
    if g.len() == 0 {
        assert(s.drop_last() =~= r);
        assert(s.last() == SLASH);
        assert(s.len() > 0);
        assert(pieces(s, SLASH) == pieces(s.drop_last(), SLASH).push(seq![]));
        assert(split(s) == pieces(s, SLASH));
        assert(g =~= seq![]);
        assert(split(s) =~= split(r).push(g));
    } else {
        let h = g.drop_last();
        assert(!h.contains(SLASH)) by {
            if h.contains(SLASH) {
                let i = choose|i: int| 0 <= i < h.len() && h[i] == SLASH;
                assert(g[i] == SLASH);
            }
        }
        lemma_split_extend(r, h);
        assert(s.drop_last() =~= r + seq![SLASH] + h);
        assert(g[g.len() - 1] != SLASH);
        assert(s.last() == g.last());
        assert(h.push(g.last()) =~= g);
        assert(split(s) == pieces(s, SLASH));
        assert(split(s) =~= split(r).push(g));
    }
}

/// Joining segments without slashes adds no segment that names a parent
/// directory.
proof fn lemma_joined_keeps_level(segs: Seq<Seq<u8>>)
    requires
        forall|k: int| 0 <= k < segs.len() ==> !(#[trigger] segs[k]).contains(SLASH),
        !climbs(segs),
    ensures
        !climbs(split(joined(segs))),
    decreases segs.len(),
{
    if segs.len() == 0 {
        assert(split(joined(segs)) =~= seq![Seq::<u8>::empty()]);
        if climbs(split(joined(segs))) {
            let k = choose|k: int| 0 <= k < split(joined(segs)).len() && is_parent(#[trigger] split(joined(segs))[k]);
            assert(split(joined(segs))[k].len() == 0);
        }
    } else {
        let init = segs.drop_last();
        assert forall|k: int| 0 <= k < init.len() implies !(#[trigger] init[k]).contains(SLASH) by {
            assert(init[k] == segs[k]);
        }
        if climbs(init) {
            let k = choose|k: int| 0 <= k < init.len() && is_parent(#[trigger] init[k]);
            assert(segs[k] == init[k]);
        }
        lemma_joined_keeps_level(init);
        let g = segs.last();
        if !is_blank(g) {
            assert(segs[segs.len() - 1] == g);
            lemma_split_extend(joined(init), g);
            let all = split(joined(segs));
            if climbs(all) {
                let k = choose|k: int| 0 <= k < all.len() && is_parent(#[trigger] all[k]);
                if k < all.len() - 1 {
                    assert(all[k] == split(joined(init))[k]);
                } else {
                    assert(all[k] == g);
                }
            }
        }
    }
}

/// A resolved path is the root followed by segments of which none names a
/// parent directory: a request never reaches above the root.
pub proof fn lemma_resolved_within_root(root: Seq<u8>, rest: Seq<u8>)
    requires
        resolved(root, rest) is Some,
    ensures
        resolved(root, rest)->0.subrange(0, root.len() as int) == root,
        !climbs(split(resolved(root, rest)->0.subrange(root.len() as int, resolved(root, rest)->0.len() as int))),
{
    let segs = split(decoded(rest));
    let p = resolved(root, rest)->0;
    lemma_pieces_lack_sep(decoded(rest), SLASH);
    lemma_joined_keeps_level(segs);
    assert(p.subrange(0, root.len() as int) =~= root);
    assert(p.subrange(root.len() as int, p.len() as int) =~= joined(segs));
}

} // verus!
