//! `ratodo done '<text>'` across every open list: which one task it means,
//! or why it means none.

use vstd::prelude::*;

use crate::model::{first_done_hit, open_hits, titles_at, views, Doc, Line, Lookup};
use crate::strs::{chars_of, lower_case, trim};

verus! {

/// Text order: character by character, a prefix first.
pub open spec fn text_le(a: Seq<char>, b: Seq<char>) -> bool
    decreases a.len(),
{
    if a.len() == 0 {
        true
    } else if b.len() == 0 {
        false
    } else if a[0] != b[0] {
        (a[0] as u32) < (b[0] as u32)
    } else {
        text_le(a.drop_first(), b.drop_first())
    }
}

/// A character's code as a `u32` is its code.
proof fn lemma_code(c: char)
    ensures
        (c as u32) as int == c as int,
{
}

pub proof fn lemma_text_le_total(a: Seq<char>, b: Seq<char>)
    ensures
        text_le(a, b) || text_le(b, a),
    decreases a.len(),
{
    if a.len() > 0 && b.len() > 0 {
        if a[0] == b[0] {
            lemma_text_le_total(a.drop_first(), b.drop_first());
        } else {
            lemma_code(a[0]);
            lemma_code(b[0]);
        }
    }
}

pub proof fn lemma_text_le_trans(a: Seq<char>, b: Seq<char>, c: Seq<char>)
    requires
        text_le(a, b),
        text_le(b, c),
    ensures
        text_le(a, c),
    decreases a.len(),
{
    if a.len() > 0 && b.len() > 0 && c.len() > 0 {
        lemma_code(a[0]);
        lemma_code(b[0]);
        lemma_code(c[0]);
        if a[0] == b[0] && b[0] == c[0] {
            lemma_text_le_trans(a.drop_first(), b.drop_first(), c.drop_first());
        }
    }
}

pub open spec fn sorted_texts(s: Seq<Seq<char>>) -> bool {
    forall|i: int, j: int| 0 <= i < j < s.len() ==> text_le(#[trigger] s[i], #[trigger] s[j])
}

fn le(a: &Vec<char>, b: &Vec<char>) -> (r: bool)
    ensures
        r == text_le(a@, b@),
{
    let mut k: usize = 0;
    assert(a@.skip(0) =~= a@);
    assert(b@.skip(0) =~= b@);
    while k < a.len() && k < b.len() && a[k] == b[k]
        invariant
            k <= a@.len(),
            k <= b@.len(),
            text_le(a@, b@) == text_le(a@.skip(k as int), b@.skip(k as int)),
        decreases a@.len() - k,
    {
        assert(a@.skip(k as int).drop_first() =~= a@.skip(k + 1));
        assert(b@.skip(k as int).drop_first() =~= b@.skip(k + 1));
        k += 1;
    }
    if k == a.len() {
        assert(a@.skip(k as int) =~= Seq::<char>::empty());
        true
    } else if k == b.len() {
        assert(b@.skip(k as int) =~= Seq::<char>::empty());
        false
    } else {
        assert(a@.skip(k as int)[0] == a@[k as int]);
        assert(b@.skip(k as int)[0] == b@[k as int]);
        (a[k] as u32) < (b[k] as u32)
    }
}

/// The same texts, in text order.
pub fn sort_texts(v: Vec<String>) -> (r: Vec<String>)
    ensures
        sorted_texts(views(r@)),
        views(r@).to_multiset() == views(v@).to_multiset(),
{
    let mut out: Vec<String> = Vec::new();
    let mut i: usize = 0;
    proof {
        assert(views(v@.take(0)) =~= Seq::<Seq<char>>::empty());
        assert(views(out@) =~= Seq::<Seq<char>>::empty());
    }
    while i < v.len()
        invariant
            i <= v@.len(),
            sorted_texts(views(out@)),
            views(out@).to_multiset() == views(v@.take(i as int)).to_multiset(),
        decreases v@.len() - i,
    {
        let x = chars_of(v[i].as_str());
        let mut p: usize = 0;
        while p < out.len() && le(&chars_of(out[p].as_str()), &x)
            invariant
                p <= out@.len(),
                i < v@.len(),
                x@ == v@[i as int]@,
                forall|k: int| 0 <= k < p ==> text_le(#[trigger] views(out@)[k], x@),
            decreases out@.len() - p,
        {
            p += 1;
        }
        let ghost before = views(out@);
        proof {
            if p < out@.len() {
                lemma_text_le_total(before[p as int], x@);
            }
        }
        out.insert(p, v[i].clone());
        proof {
            let now = views(out@);
            assert(now =~= before.insert(p as int, x@));
            assert forall|a: int, b: int| 0 <= a < b < now.len() implies text_le(#[trigger] now[a], #[trigger] now[b]) by {
                if b < p {
                    assert(now[a] == before[a] && now[b] == before[b]);
                } else if b == p {
                    assert(now[a] == before[a]);
                } else if a == p {
                    assert(now[b] == before[b - 1]);
                    if b - 1 > p {
                        lemma_text_le_trans(x@, before[p as int], before[b - 1]);
                    }
                } else if a < p {
                    assert(now[a] == before[a] && now[b] == before[b - 1]);
                    lemma_text_le_trans(before[a], x@, before[p as int]);
                    if b - 1 > p {
                        lemma_text_le_trans(before[a], before[p as int], before[b - 1]);
                    }
                } else {
                    assert(now[a] == before[a - 1] && now[b] == before[b - 1]);
                }
            }
            vstd::seq_lib::to_multiset_insert(before, p as int, x@);
            assert(views(v@.take(i + 1)) =~= views(v@.take(i as int)).push(x@));
            vstd::seq_lib::to_multiset_build(views(v@.take(i as int)), x@);
        }
        i += 1;
    }
    assert(v@.take(v@.len() as int) =~= v@);
    out
}

/// What `done` found across every list.
#[derive(Debug, Clone, PartialEq, Eq)]
pub enum DoneMatch {
    /// One open task, on this line of this list: the only case that writes.
    Tick(usize, usize),
    /// More than one open task matches; their titles, in text order.
    Ambiguous(Vec<String>),
    /// Matched, but only a task that is already finished.
    AlreadyDone(String),
    NoMatch,
}

/// The lone open matches, list by list.
pub open spec fn hits_in(ds: Seq<Seq<Line>>, n: Seq<char>) -> Seq<(int, int)>
    decreases ds.len(),
{
    if ds.len() == 0 {
        seq![]
    } else {
        let h = open_hits(ds.last(), n);
        hits_in(ds.drop_last(), n) + if n.len() > 0 && h.len() == 1 {
            seq![(ds.len() - 1, h[0])]
        } else {
            seq![]
        }
    }
}

/// The titles from lists where several open tasks match.
pub open spec fn cands_in(ds: Seq<Seq<Line>>, n: Seq<char>) -> Seq<Seq<char>>
    decreases ds.len(),
{
    if ds.len() == 0 {
        seq![]
    } else {
        let h = open_hits(ds.last(), n);
        cands_in(ds.drop_last(), n) + if n.len() > 0 && h.len() > 1 {
            titles_at(ds.last(), h)
        } else {
            seq![]
        }
    }
}

/// The finished task that matched, from the last list that had one.
pub open spec fn already_in(ds: Seq<Seq<Line>>, n: Seq<char>) -> Option<Seq<char>>
    decreases ds.len(),
{
    if ds.len() == 0 {
        None
    } else {
        let here = if n.len() > 0 && open_hits(ds.last(), n).len() == 0 {
            first_done_hit(ds.last(), n)
        } else {
            None
        };
        match here {
            Some(t) => Some(t),
            None => already_in(ds.drop_last(), n),
        }
    }
}

pub open spec fn doc_lines(docs: Seq<Doc>) -> Seq<Seq<Line>> {
    docs.map_values(|d: Doc| d.lines@)
}

/// The titles of the lone matches.
pub open spec fn hit_titles(ds: Seq<Seq<Line>>, hits: Seq<(int, int)>) -> Seq<Seq<char>> {
    hits.map_values(|h: (int, int)| titles_at(ds[h.0], seq![h.1])[0])
}

/// One open task anywhere and nothing else close to it is the only case
/// that ticks; any more is ambiguous, and the titles of every contender are
/// named, in text order.
pub fn pick_done(docs: &[Doc], text: &str) -> (r: DoneMatch)
    ensures
        ({
            let ds = doc_lines(docs@);
            let n = lower_case(trim(text@));
            let hits = hits_in(ds, n);
            let cands = cands_in(ds, n);
            if hits.len() > 1 || cands.len() > 1 || (hits.len() == 1 && cands.len() == 1) {
                r matches DoneMatch::Ambiguous(v) && sorted_texts(views(v@)) && views(v@).to_multiset()
                    == (cands + hit_titles(ds, hits)).to_multiset()
            } else if hits.len() == 1 {
                r == DoneMatch::Tick(hits[0].0 as usize, hits[0].1 as usize)
            } else {
                match already_in(ds, n) {
                    Some(t) => r matches DoneMatch::AlreadyDone(s) && s@ == t,
                    None => r == DoneMatch::NoMatch,
                }
            }
        }),
{
    let ghost ds = doc_lines(docs@);
    let ghost n = lower_case(trim(text@));
    let mut hits: Vec<(usize, usize)> = Vec::new();
    let mut cands: Vec<String> = Vec::new();
    let mut already: Option<String> = None;
    let mut w: usize = 0;
    assert(ds.take(0) =~= Seq::<Seq<Line>>::empty());
    while w < docs.len()
        invariant
            w <= docs@.len(),
            ds == doc_lines(docs@),
            n == lower_case(trim(text@)),
            hits@.len() == hits_in(ds.take(w as int), n).len(),
            forall|k: int| 0 <= k < hits@.len() ==> (hits@[k].0 as int, hits@[k].1 as int) == #[trigger] hits_in(ds.take(w as int), n)[k],
            views(cands@) == cands_in(ds.take(w as int), n),
            match already_in(ds.take(w as int), n) {
                Some(t) => already matches Some(s) && s@ == t,
                None => already is None,
            },
        decreases docs@.len() - w,
    {
        let ghost pre = ds.take(w as int);
        assert(ds.take(w + 1).drop_last() =~= pre);
        assert(ds.take(w + 1).last() == docs@[w as int].lines@);
        let ghost old_hits = hits@;
        let ghost old_cands = views(cands@);
        match docs[w].find_open(text) {
            Lookup::One(at) => {
                let line_count = docs[w].lines.len();
                proof {
                    crate::model::lemma_open_hits(docs@[w as int].lines@, n);
                }
                hits.push((w, at));
                assert(docs@[w as int].lines@.len() == line_count);
                assert(hits_in(ds.take(w + 1), n) =~= hits_in(pre, n) + seq![(w as int, at as int)]);
            },
            Lookup::Several(found) => {
                let mut k: usize = 0;
                while k < found.len()
                    invariant
                        k <= found@.len(),
                        views(cands@) == old_cands + views(found@).take(k as int),
                    decreases found@.len() - k,
                {
                    let ghost c0 = views(cands@);
                    cands.push(found[k].clone());
                    assert(views(cands@) =~= c0.push(found@[k as int]@));
                    assert(views(found@).take(k + 1) =~= views(found@).take(k as int).push(found@[k as int]@));
                    assert(views(cands@) =~= old_cands + views(found@).take(k + 1));
                    k += 1;
                }
                assert(views(found@).take(found@.len() as int) =~= views(found@));
                assert(hits_in(ds.take(w + 1), n) =~= hits_in(pre, n));
            },
            Lookup::AlreadyDone(title) => {
                already = Some(title);
                assert(hits_in(ds.take(w + 1), n) =~= hits_in(pre, n));
                assert(cands_in(ds.take(w + 1), n) =~= cands_in(pre, n));
            },
            Lookup::NoMatch => {
                assert(hits_in(ds.take(w + 1), n) =~= hits_in(pre, n));
                assert(cands_in(ds.take(w + 1), n) =~= cands_in(pre, n));
            },
        }
        w += 1;
    }
    assert(ds.take(docs@.len() as int) =~= ds);
    if hits.len() > 1 || cands.len() > 1 || (hits.len() == 1 && cands.len() == 1) {
        let mut all: Vec<String> = Vec::new();
        let mut k: usize = 0;
        while k < cands.len()
            invariant
                k <= cands@.len(),
                views(all@) == views(cands@).take(k as int),
            decreases cands@.len() - k,
        {
            let ghost a0 = views(all@);
            all.push(cands[k].clone());
            assert(views(all@) =~= a0.push(cands@[k as int]@));
            assert(views(cands@).take(k + 1) =~= views(cands@).take(k as int).push(cands@[k as int]@));
            assert(views(all@) =~= views(cands@).take(k + 1));
            k += 1;
        }
        assert(views(cands@).take(cands@.len() as int) =~= views(cands@));
        let ghost hs = hits_in(ds, n);
        let mut j: usize = 0;
        while j < hits.len()
            invariant
                j <= hits@.len(),
                ds == doc_lines(docs@),
                hs == hits_in(ds, n),
                hits@.len() == hs.len(),
                forall|q: int| 0 <= q < hits@.len() ==> (hits@[q].0 as int, hits@[q].1 as int) == #[trigger] hs[q],
                views(all@) == views(cands@) + hit_titles(ds, hs).take(j as int),
            decreases hits@.len() - j,
        {
            let (dw, at) = hits[j];
            proof {
                lemma_hits_real(ds, n, j as int);
            }
            let title = match &docs[dw].lines[at].item {
                crate::model::Item::Task(t) => t.title.clone(),
                crate::model::Item::Text(s) => s.clone(),
            };
            let ghost a0 = views(all@);
            let ghost tv = title@;
            all.push(title);
            assert(views(all@) =~= a0.push(tv));
            assert(hit_titles(ds, hs)[j as int] == tv);
            assert(hit_titles(ds, hs).take(j + 1) =~= hit_titles(ds, hs).take(j as int).push(tv));
            assert(views(all@) =~= views(cands@) + hit_titles(ds, hs).take(j + 1));
            j += 1;
        }
        assert(hit_titles(ds, hs).take(hits@.len() as int) =~= hit_titles(ds, hs));
        return DoneMatch::Ambiguous(sort_texts(all));
    }
    if hits.len() == 1 {
        let (dw, at) = hits[0];
        return DoneMatch::Tick(dw, at);
    }
    match already {
        Some(t) => DoneMatch::AlreadyDone(t),
        None => DoneMatch::NoMatch,
    }
}

/// Every lone match names a line of its list.
proof fn lemma_hits_real(ds: Seq<Seq<Line>>, n: Seq<char>, q: int)
    requires
        0 <= q < hits_in(ds, n).len(),
    ensures
        0 <= hits_in(ds, n)[q].0 < ds.len(),
        0 <= hits_in(ds, n)[q].1 < ds[hits_in(ds, n)[q].0].len(),
    decreases ds.len(),
{
    let rest = hits_in(ds.drop_last(), n);
    if q < rest.len() {
        lemma_hits_real(ds.drop_last(), n, q);
        assert(hits_in(ds, n)[q] == rest[q]);
    } else {
        crate::model::lemma_open_hits(ds.last(), n);
    }
}

} // verus!
