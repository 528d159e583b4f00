//! Splitting and joining text on a separator character, with the laws that
//! relate the two.

use vstd::prelude::*;

verus! {

/// The views of a sequence of strings.
pub open spec fn views(v: Seq<String>) -> Seq<Seq<char>> {
    v.map_values(|p: String| p@)
}

/// The pieces of `s` between occurrences of `sep`, as `str::split` gives
/// them: always at least one piece, empty pieces kept.
pub open spec fn split_spec(s: Seq<char>, sep: char) -> Seq<Seq<char>>
    decreases s.len(),
{
    if s.len() == 0 {
        seq![Seq::empty()]
    } else {
        let prev = split_spec(s.drop_last(), sep);
        if s.last() == sep {
            prev.push(Seq::empty())
        } else {
            prev.update(prev.len() - 1, prev.last().push(s.last()))
        }
    }
}

/// The text before the first `sep` and the text after it, if `s` holds one.
pub open spec fn split_once_spec(s: Seq<char>, sep: char) -> Option<(Seq<char>, Seq<char>)>
    decreases s.len(),
{
    if s.len() == 0 {
        None
    } else if s[0] == sep {
        Some((Seq::empty(), s.skip(1)))
    } else {
        match split_once_spec(s.skip(1), sep) {
            None => None,
            Some(p) => Some((seq![s[0]] + p.0, p.1)),
        }
    }
}

/// The pieces put back together, `sep` between each two.
pub open spec fn join_spec(pieces: Seq<Seq<char>>, sep: char) -> Seq<char>
    decreases pieces.len(),
{
    if pieces.len() == 0 {
        Seq::empty()
    } else if pieces.len() == 1 {
        pieces[0]
    } else {
        join_spec(pieces.drop_last(), sep) + seq![sep] + pieces.last()
    }
}

/// No piece holds `sep`.
pub open spec fn none_holds(pieces: Seq<Seq<char>>, sep: char) -> bool {
    forall|i: int| 0 <= i < pieces.len() ==> !(#[trigger] pieces[i]).contains(sep)
}

pub proof fn lemma_split_nonempty(s: Seq<char>, sep: char)
    ensures
        split_spec(s, sep).len() >= 1,
    decreases s.len(),
{
    if s.len() > 0 {
        lemma_split_nonempty(s.drop_last(), sep);
    }
}

/// Text without the separator is one piece.
pub proof fn lemma_split_single(s: Seq<char>, sep: char)
    requires
        !s.contains(sep),
    ensures
        split_spec(s, sep) == seq![s],
    decreases s.len(),
{
    if s.len() > 0 {
        assert(!s.drop_last().contains(sep)) by {
            let sd = s.drop_last();
            if sd.contains(sep) {
                let k = choose|k: int| 0 <= k < sd.len() && sd[k] == sep;
                assert(s[k] == sep);
            }
        }
        lemma_split_single(s.drop_last(), sep);
        assert(s.last() != sep) by {
            assert(s[s.len() - 1] == s.last());
        }
        assert(s.drop_last().push(s.last()) =~= s);
    } else {
        assert(s =~= Seq::<char>::empty());
    }
}

/// Splitting around one separator splits each side.
pub proof fn lemma_split_concat(a: Seq<char>, b: Seq<char>, sep: char)
    ensures
        split_spec(a + seq![sep] + b, sep) == split_spec(a, sep) + split_spec(b, sep),
    decreases b.len(),
{
    let ab = a + seq![sep] + b;
    if b.len() == 0 {
        assert(ab.drop_last() =~= a);
        assert(split_spec(b, sep) == seq![Seq::<char>::empty()]);
        assert(split_spec(a, sep).push(Seq::empty()) =~= split_spec(a, sep) + seq![Seq::<char>::empty()]);
    } else {
        lemma_split_concat(a, b.drop_last(), sep);
        lemma_split_nonempty(b.drop_last(), sep);
        lemma_split_nonempty(a, sep);
        assert(ab.drop_last() =~= a + seq![sep] + b.drop_last());
        assert(ab.last() == b.last());
        let sa = split_spec(a, sep);
        let sb = split_spec(b.drop_last(), sep);
        if b.last() == sep {
            assert((sa + sb).push(Seq::empty()) =~= sa + sb.push(Seq::empty()));
        } else {
            let prev = sa + sb;
            assert(prev.last() == sb.last());
            assert(prev.update(prev.len() - 1, prev.last().push(b.last())) =~= sa + sb.update(
                sb.len() - 1,
                sb.last().push(b.last()),
            ));
        }
    }
}

/// No piece of a split holds the separator.
pub proof fn lemma_split_pieces(s: Seq<char>, sep: char)
    ensures
        none_holds(split_spec(s, sep), sep),
    decreases s.len(),
{
    if s.len() > 0 {
        lemma_split_pieces(s.drop_last(), sep);
        lemma_split_nonempty(s.drop_last(), sep);
        let prev = split_spec(s.drop_last(), sep);
        if s.last() != sep {
            let np = prev.update(prev.len() - 1, prev.last().push(s.last()));
            assert forall|i: int| 0 <= i < np.len() implies !(#[trigger] np[i]).contains(sep) by {
                if i == prev.len() - 1 {
                    if np[i].contains(sep) {
                        let k = choose|k: int| 0 <= k < np[i].len() && np[i][k] == sep;
                        if k < prev.last().len() {
                            assert(prev[i][k] == sep);
                            assert(prev[i].contains(sep));
                        }
                    }
                } else {
                    assert(np[i] == prev[i]);
                }
            }
        } else {
            let np = prev.push(Seq::<char>::empty());
            assert forall|i: int| 0 <= i < np.len() implies !(#[trigger] np[i]).contains(sep) by {
                if i < prev.len() {
                    assert(np[i] == prev[i]);
                }
            }
        }
    }
}

/// Splitting what was joined gives back the pieces.
pub proof fn lemma_split_join(pieces: Seq<Seq<char>>, sep: char)
    requires
        pieces.len() >= 1,
        none_holds(pieces, sep),
    ensures
        split_spec(join_spec(pieces, sep), sep) == pieces,
    decreases pieces.len(),
{
    if pieces.len() == 1 {
        assert(!pieces[0].contains(sep));
        lemma_split_single(pieces[0], sep);
        assert(pieces =~= seq![pieces[0]]);
    } else {
        let init = pieces.drop_last();
        assert forall|i: int| 0 <= i < init.len() implies !(#[trigger] init[i]).contains(sep) by {
            assert(init[i] == pieces[i]);
        }
        lemma_split_join(init, sep);
        assert(!pieces[pieces.len() - 1].contains(sep));
        lemma_split_single(pieces.last(), sep);
        lemma_split_concat(join_spec(init, sep), pieces.last(), sep);
        assert(init + seq![pieces.last()] =~= pieces);
    }
}

/// Joining the pieces of a split gives back the text.
pub proof fn lemma_join_split(s: Seq<char>, sep: char)
    ensures
        join_spec(split_spec(s, sep), sep) == s,
    decreases s.len(),
{
    if s.len() == 0 {
        assert(s =~= Seq::<char>::empty());
    } else {
        lemma_join_split(s.drop_last(), sep);
        lemma_split_nonempty(s.drop_last(), sep);
        let prev = split_spec(s.drop_last(), sep);
        if s.last() == sep {
            let np = prev.push(Seq::<char>::empty());
            assert(np.drop_last() =~= prev);
            assert(join_spec(np, sep) == join_spec(prev, sep) + seq![sep] + Seq::<char>::empty());
            assert(s.drop_last() + seq![sep] + Seq::<char>::empty() =~= s);
        } else {
            let np = prev.update(prev.len() - 1, prev.last().push(s.last()));
            if prev.len() == 1 {
                assert(s.drop_last().push(s.last()) =~= s);
            } else {
                assert(np.drop_last() =~= prev.drop_last());
                assert(join_spec(prev.drop_last(), sep) + seq![sep] + prev.last().push(s.last())
                    =~= (join_spec(prev.drop_last(), sep) + seq![sep] + prev.last()).push(s.last()));
                assert(s.drop_last().push(s.last()) =~= s);
            }
        }
    }
}

/// A join holds a character only where a piece or the separator does.
pub proof fn lemma_join_free(pieces: Seq<Seq<char>>, sep: char, c: char)
    requires
        sep != c,
        none_holds(pieces, c),
    ensures
        !join_spec(pieces, sep).contains(c),
    decreases pieces.len(),
{
    if pieces.len() == 1 {
        assert(!pieces[0].contains(c));
    } else if pieces.len() > 1 {
        let init = pieces.drop_last();
        assert forall|i: int| 0 <= i < init.len() implies !(#[trigger] init[i]).contains(c) by {
            assert(init[i] == pieces[i]);
        }
        lemma_join_free(init, sep, c);
        assert(!pieces[pieces.len() - 1].contains(c));
        let j = join_spec(pieces, sep);
        let a = join_spec(init, sep);
        let b = pieces.last();
        assert(j == a + seq![sep] + b);
        if j.contains(c) {
            let k = choose|k: int| 0 <= k < j.len() && j[k] == c;
            if k < a.len() {
                assert(a[k] == c);
            } else if k > a.len() {
                assert(b[k - a.len() - 1] == c);
            }
        }
    }
}

/// What `split_once_spec` gives back, around the first separator.
pub proof fn lemma_split_once_at(s: Seq<char>, sep: char, i: int)
    requires
        0 <= i < s.len(),
        s[i] == sep,
        !s.take(i).contains(sep),
    ensures
        split_once_spec(s, sep) == Some((s.take(i), s.skip(i + 1))),
    decreases i,
{
    if i > 0 {
        assert(s[0] != sep) by {
            assert(s.take(i)[0] == s[0]);
        }
        let t = s.skip(1);
        assert(!t.take(i - 1).contains(sep)) by {
            let ti = t.take(i - 1);
            if ti.contains(sep) {
                let k = choose|k: int| 0 <= k < ti.len() && ti[k] == sep;
                assert(s.take(i)[k + 1] == sep);
            }
        }
        lemma_split_once_at(t, sep, i - 1);
        assert(seq![s[0]] + t.take(i - 1) =~= s.take(i));
        assert(t.skip(i) =~= s.skip(i + 1));
    } else {
        assert(s.take(0) =~= Seq::<char>::empty());
    }
}

/// Text without the separator does not split once.
pub proof fn lemma_split_once_none(s: Seq<char>, sep: char)
    requires
        !s.contains(sep),
    ensures
        split_once_spec(s, sep) is None,
    decreases s.len(),
{
    if s.len() > 0 {
        assert(s[0] != sep);
        assert(!s.skip(1).contains(sep)) by {
            let s1 = s.skip(1);
            if s1.contains(sep) {
                let k = choose|k: int| 0 <= k < s1.len() && s1[k] == sep;
                assert(s[k + 1] == sep);
            }
        }
        lemma_split_once_none(s.skip(1), sep);
    }
}

/// The text before the first separator holds none.
pub proof fn lemma_split_once_head(s: Seq<char>, sep: char)
    requires
        split_once_spec(s, sep) is Some,
    ensures
        !split_once_spec(s, sep).unwrap().0.contains(sep),
        s == split_once_spec(s, sep).unwrap().0 + seq![sep] + split_once_spec(s, sep).unwrap().1,
    decreases s.len(),
{
    if s[0] == sep {
        assert(s =~= Seq::<char>::empty() + seq![sep] + s.skip(1));
    } else {
        lemma_split_once_head(s.skip(1), sep);
        let p = split_once_spec(s.skip(1), sep).unwrap();
        let h = seq![s[0]] + p.0;
        assert(!h.contains(sep)) by {
            if h.contains(sep) {
                let k = choose|k: int| 0 <= k < h.len() && h[k] == sep;
                if k > 0 {
                    assert(p.0[k - 1] == sep);
                }
            }
        }
        assert(s =~= seq![s[0]] + s.skip(1));
    }
}

/// Splits `s` at every `sep`.
pub fn split_text(s: &str, sep: char) -> (r: Vec<String>)
    ensures
        views(r@) == split_spec(s@, sep),
{
    let n = s.unicode_len();
    let mut out: Vec<String> = Vec::new();
    let mut start: usize = 0;
    let mut i: usize = 0;
    assert(s@.take(0) =~= Seq::<char>::empty());
    assert(views(out@).push(s@.subrange(0, 0)) =~= seq![Seq::<char>::empty()]);
    while i < n
        invariant
            n == s@.len(),
            start <= i <= n,
            split_spec(s@.take(i as int), sep) == views(out@).push(s@.subrange(start as int, i as int)),
        decreases n - i,
    {
        let c = s.get_char(i);
        assert(s@.take(i + 1).drop_last() =~= s@.take(i as int));
        assert(s@.take(i + 1).last() == c);
        if c == sep {
            let piece = s.substring_char(start, i).to_owned();
            let ghost prior = out@;
            out.push(piece);
            assert(views(out@) =~= views(prior).push(piece@)) by {
                assert(out@ =~= prior.push(piece));
            }
            start = i + 1;
            assert(s@.subrange(start as int, start as int) =~= Seq::<char>::empty());
        } else {
            assert(s@.subrange(start as int, i + 1) =~= s@.subrange(start as int, i as int).push(c));
            assert(views(out@).push(s@.subrange(start as int, i as int)).update(
                views(out@).len() as int,
                s@.subrange(start as int, i as int).push(c),
            ) =~= views(out@).push(s@.subrange(start as int, i + 1)));
        }
        i = i + 1;
    }
    let last = s.substring_char(start, n).to_owned();
    let ghost before = out@;
    out.push(last);
    assert(s@.take(n as int) =~= s@);
    assert(views(out@) =~= views(before).push(last@)) by {
        assert(out@ =~= before.push(last));
    }
    out
}

/// Splits `s` at its first `sep`, if it holds one.
pub fn split_once_text(s: &str, sep: char) -> (r: Option<(String, String)>)
    ensures
        match r {
            None => split_once_spec(s@, sep) is None,
            Some((a, b)) => split_once_spec(s@, sep) == Some((a@, b@)),
        },
{
    let n = s.unicode_len();
    let mut i: usize = 0;
    while i < n
        invariant
            n == s@.len(),
            i <= n,
            !s@.take(i as int).contains(sep),
        decreases n - i,
    {
        if s.get_char(i) == sep {
            proof {
                lemma_split_once_at(s@, sep, i as int);
            }
            let head = s.substring_char(0, i).to_owned();
            let tail = s.substring_char(i + 1, n).to_owned();
            assert(head@ =~= s@.take(i as int));
            assert(tail@ =~= s@.skip(i + 1));
            return Some((head, tail));
        }
        assert(!s@.take(i + 1).contains(sep)) by {
            let si = s@.take(i + 1);
            if si.contains(sep) {
                let k = choose|k: int| 0 <= k < si.len() && si[k] == sep;
                if k < i {
                    assert(s@.take(i as int)[k] == sep);
                }
            }
        }
        i = i + 1;
    }
    proof {
        assert(s@.take(n as int) =~= s@);
        lemma_split_once_none(s@, sep);
    }
    None
}

/// Joins the pieces with `sep` between each two.
pub fn join_text(pieces: &Vec<String>, sep: &str) -> (r: String)
    requires
        sep@.len() == 1,
    ensures
        r@ == join_spec(views(pieces@), sep@[0]),
{
    let mut out = String::new();
    let mut i: usize = 0;
    while i < pieces.len()
        invariant
            sep@.len() == 1,
            i <= pieces@.len(),
            out@ == join_spec(views(pieces@.take(i as int)), sep@[0]),
        decreases pieces@.len() - i,
    {
        assert(views(pieces@.take(i + 1)).drop_last() =~= views(pieces@.take(i as int)));
        assert(views(pieces@.take(i + 1)).last() == pieces@[i as int]@);
        if i > 0 {
            out.append(sep);
            assert(sep@ =~= seq![sep@[0]]);
        } else {
            assert(out@ =~= Seq::<char>::empty());
        }
        out.append(pieces[i].as_str());
        i = i + 1;
    }
    assert(pieces@.take(pieces@.len() as int) =~= pieces@);
    out
}

} // verus!
