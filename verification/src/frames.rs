//! Frame files of an event directory: which entries count as frames, and the
//! order in which they play.

use vstd::prelude::*;
use crate::text::lex_le;
use crate::text::lex_sorted;
use crate::text::lex_le_str;
use crate::text::views_of;
use crate::text::lemma_lex_le_total;
use crate::text::lemma_lex_le_trans;

verus! {

broadcast use vstd::seq_lib::group_to_multiset_ensures;

/// A frame file name: it ends in the extension ".jpg", with a non-empty stem
/// before the dot.
pub open spec fn is_jpg_name(s: Seq<char>) -> bool {
    s.len() >= 5 && s[s.len() - 4] == '.' && s[s.len() - 3] == 'j' && s[s.len() - 2] == 'p'
        && s[s.len() - 1] == 'g'
}

/// Whether a file name names a frame.
pub fn has_jpg_extension(name: &str) -> (r: bool)
    ensures
        r == is_jpg_name(name@),
{
    let len: usize = name.unicode_len();
    if len < 5 {
        return false;
    }
    let c1 = name.get_char(len - 4);
    let c2 = name.get_char(len - 3);
    let c3 = name.get_char(len - 2);
    let c4 = name.get_char(len - 1);
    c1 == '.' && c2 == 'j' && c3 == 'p' && c4 == 'g'
}

/// The frame file names among a directory's entries, in the order given.
pub open spec fn jpg_names(names: Seq<Seq<char>>) -> Seq<Seq<char>>
    decreases names.len(),
{
    if names.len() == 0 {
        Seq::empty()
    } else {
        let rest = jpg_names(names.drop_last());
        if is_jpg_name(names.last()) {
            rest.push(names.last())
        } else {
            rest
        }
    }
}

/// Every name the filter keeps is a frame file name.
pub proof fn lemma_jpg_names_elems(names: Seq<Seq<char>>)
    ensures
        forall|k: int|
            0 <= k < jpg_names(names).len() ==> is_jpg_name(#[trigger] jpg_names(names)[k]),
    decreases names.len(),
{
    if names.len() > 0 {
        lemma_jpg_names_elems(names.drop_last());
        let rest = jpg_names(names.drop_last());
        assert forall|k: int| 0 <= k < jpg_names(names).len() implies is_jpg_name(
            #[trigger] jpg_names(names)[k],
        ) by {
            if is_jpg_name(names.last()) {
                assert(jpg_names(names) == rest.push(names.last()));
                if k < rest.len() {
                    assert(jpg_names(names)[k] == rest[k]);
                } else {
                    assert(jpg_names(names)[k] == names.last());
                }
            } else {
                assert(jpg_names(names) == rest);
            }
        }
    }
}

fn filter_jpg(names: &Vec<String>) -> (out: Vec<String>)
    ensures
        views_of(out@) == jpg_names(views_of(names@)),
{
    let mut out: Vec<String> = Vec::new();
    let mut i: usize = 0;
    proof {
        assert(views_of(names@).take(0) =~= Seq::<Seq<char>>::empty());
        assert(views_of(out@) =~= Seq::<Seq<char>>::empty());
    }
    while i < names.len()
        invariant
            i <= names@.len(),
            views_of(out@) == jpg_names(views_of(names@).take(i as int)),
        decreases names@.len() - i,
    {
        let ghost prev_out = out@;
        let keep = has_jpg_extension(names[i].as_str());
        if keep {
            out.push(names[i].clone());
        }
        proof {
            let vs = views_of(names@);
            assert(names@[i as int]@ == vs[i as int]);
            assert(vs.take(i + 1).drop_last() =~= vs.take(i as int));
            assert(vs.take(i + 1).last() == vs[i as int]);
            if keep {
                assert(views_of(out@) =~= views_of(prev_out).push(vs[i as int]));
            }
        }
        i = i + 1;
    }
    proof {
        assert(views_of(names@).take(names@.len() as int) =~= views_of(names@));
    }
    out
}

/// Inserts a name into a sorted sequence of names, keeping the order and
/// adding exactly that name.
fn insert_sorted(v: &Vec<String>, x: String) -> (out: Vec<String>)
    requires
        lex_sorted(views_of(v@)),
    ensures
        lex_sorted(views_of(out@)),
        views_of(out@).to_multiset() == views_of(v@).to_multiset().insert(x@),
{
    let ghost vs = views_of(v@);
    let mut out: Vec<String> = Vec::new();
    let mut i: usize = 0;
    proof {
        assert(vs.take(0) =~= Seq::<Seq<char>>::empty());
        assert(views_of(out@) =~= Seq::<Seq<char>>::empty());
    }
    while i < v.len() && lex_le_str(v[i].as_str(), x.as_str())
        invariant
            i <= v@.len(),
            vs == views_of(v@),
            views_of(out@) == vs.take(i as int),
            forall|k: int| 0 <= k < i ==> lex_le(#[trigger] vs[k], x@),
        decreases v@.len() - i,
    {
        let ghost prev_out = out@;
        out.push(v[i].clone());
        proof {
            assert(views_of(out@) =~= views_of(prev_out).push(vs[i as int]));
            assert(vs.take(i + 1) =~= vs.take(i as int).push(vs[i as int]));
        }
        i = i + 1;
    }
    let ghost m = i as int;
    proof {
        if m < vs.len() {
            lemma_lex_le_total(vs[m], x@);
        }
    }
    let ghost before_x = out@;
    out.push(x);
    proof {
        assert(views_of(out@) =~= views_of(before_x).push(x@));
    }
    let mut j: usize = i;
    while j < v.len()
        invariant
            m <= j <= v@.len(),
            0 <= m <= v@.len(),
            vs == views_of(v@),
            views_of(out@) == vs.take(m).push(x@) + vs.subrange(m, j as int),
        decreases v@.len() - j,
    {
        let ghost prev_out = out@;
        out.push(v[j].clone());
        proof {
            assert(views_of(out@) =~= views_of(prev_out).push(vs[j as int]));
            assert(vs.take(m).push(x@) + vs.subrange(m, j + 1) =~= (vs.take(m).push(x@)
                + vs.subrange(m, j as int)).push(vs[j as int]));
        }
        j = j + 1;
    }
    proof {
        let outs = views_of(out@);
        let a = vs.take(m);
        let b = vs.subrange(m, vs.len() as int);
        assert(outs == a.push(x@) + b);
        // Order: everything before x is at most x, x is at most everything after,
        // and the rest keeps the order v already had.
        assert forall|p: int, q: int| 0 <= p < q < outs.len() implies lex_le(
            outs[p],
            outs[q],
        ) by {
            if p < m {
                assert(outs[p] == vs[p]);
            } else if p == m {
                assert(outs[p] == x@);
            } else {
                assert(outs[p] == vs[p - 1]);
            }
            if q < m {
                assert(outs[q] == vs[q]);
            } else if q == m {
                assert(outs[q] == x@);
            } else {
                assert(outs[q] == vs[q - 1]);
            }
            if q > m {
                // x is at most everything from vs[m] on.
                if q - 1 > m {
                    lemma_lex_le_trans(x@, vs[m], vs[q - 1]);
                }
                assert(lex_le(x@, vs[q - 1]));
                if p < m {
                    lemma_lex_le_trans(vs[p], x@, vs[q - 1]);
                }
            }
        }
        // Contents: the name x was added, nothing else changed.
        vstd::seq_lib::lemma_multiset_commutative(a.push(x@), b);
        vstd::seq_lib::lemma_multiset_commutative(a, b);
        assert(a + b =~= vs);
        assert(outs.to_multiset() =~= vs.to_multiset().insert(x@));
    }
    out
}

/// Sorts names into non-decreasing lexicographic order, keeping exactly the
/// names given.
fn sort_names(names: &Vec<String>) -> (out: Vec<String>)
    ensures
        lex_sorted(views_of(out@)),
        views_of(out@).to_multiset() == views_of(names@).to_multiset(),
{
    let mut out: Vec<String> = Vec::new();
    let mut i: usize = 0;
    proof {
        assert(views_of(names@).take(0) =~= Seq::<Seq<char>>::empty());
        assert(views_of(out@) =~= Seq::<Seq<char>>::empty());
        assert(views_of(out@).to_multiset() =~= views_of(names@).take(0).to_multiset());
    }
    while i < names.len()
        invariant
            i <= names@.len(),
            lex_sorted(views_of(out@)),
            views_of(out@).to_multiset() == views_of(names@).take(i as int).to_multiset(),
        decreases names@.len() - i,
    {
        out = insert_sorted(&out, names[i].clone());
        proof {
            let vs = views_of(names@);
            assert(vs.take(i + 1) =~= vs.take(i as int).push(vs[i as int]));
            assert(names@[i as int]@ == vs[i as int]);
        }
        i = i + 1;
    }
    proof {
        assert(views_of(names@).take(names@.len() as int) =~= views_of(names@));
    }
    out
}

/// Selects the frame files among a directory's entries and orders them for
/// playback: exactly the entries named `*.jpg`, in lexicographic order of
/// their names.
pub fn order_frames(names: &Vec<String>) -> (out: Vec<String>)
    ensures
        lex_sorted(views_of(out@)),
        views_of(out@).to_multiset() == jpg_names(views_of(names@)).to_multiset(),
        forall|k: int| 0 <= k < out@.len() ==> is_jpg_name(#[trigger] views_of(out@)[k]),
{
    let kept = filter_jpg(names);
    let out = sort_names(&kept);
    proof {
        lemma_jpg_names_elems(views_of(names@));
        let outs = views_of(out@);
        let jpgs = jpg_names(views_of(names@));
        assert forall|k: int| 0 <= k < outs.len() implies is_jpg_name(#[trigger] outs[k]) by {
            assert(outs.contains(outs[k]));
            assert(outs.to_multiset().count(outs[k]) > 0);
            assert(jpgs.contains(outs[k]));
            let j = choose|j: int| 0 <= j < jpgs.len() && jpgs[j] == outs[k];
            assert(is_jpg_name(jpgs[j]));
        }
    }
    out
}

} // verus!
