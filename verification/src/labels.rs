//! Label sets.
//!
//! A label set is written as an ordered list of `(name, value)` pairs.  What
//! it means is the mapping from names to values that the list spells out, a
//! later pair overriding an earlier one of the same name: two lists with the
//! same mapping are the same label set, whatever their order.

use vstd::prelude::*;

verus! {

/// A list of labels as plain text.
pub type Labels = Seq<(Seq<char>, Seq<char>)>;

/// The text of a list of labels.
pub open spec fn pairs(v: Seq<(String, String)>) -> Labels {
    Seq::new(v.len(), |i: int| (v[i].0@, v[i].1@))
}

/// The index of the last pair of `s` named `name`, or -1 where there is none.
pub open spec fn position(s: Labels, name: Seq<char>) -> int
    decreases s.len(),
{
    if s.len() == 0 {
        -1
    } else if s.last().0 == name {
        s.len() - 1
    } else {
        position(s.drop_last(), name)
    }
}

/// The mapping that a list of labels spells out: the last pair of a name
/// gives its value.
pub open spec fn label_map(s: Labels) -> Map<Seq<char>, Seq<char>>
    decreases s.len(),
{
    if s.len() == 0 {
        Map::empty()
    } else {
        label_map(s.drop_last()).insert(s.last().0, s.last().1)
    }
}

/// No name stands twice in `s`.
pub open spec fn unique_names(s: Labels) -> bool {
    forall|i: int, j: int| 0 <= i < j < s.len() ==> (#[trigger] s[i]).0 != (#[trigger] s[j]).0
}

/// `s` with the label `name` set to `value`: in place where `s` has the name,
/// at the end where it has not.
pub open spec fn with_label(s: Labels, name: Seq<char>, value: Seq<char>) -> Labels {
    let p = position(s, name);
    if p >= 0 {
        s.update(p, (name, value))
    } else {
        s.push((name, value))
    }
}

/// `position` finds the last pair of the name, and -1 only where no pair has
/// it.
pub proof fn lemma_position(s: Labels, name: Seq<char>)
    ensures
        -1 <= position(s, name) < s.len(),
        position(s, name) >= 0 ==> s[position(s, name)].0 == name,
        forall|j: int| position(s, name) < j < s.len() ==> (#[trigger] s[j]).0 != name,
    decreases s.len(),
{
    if s.len() > 0 && s.last().0 != name {
        lemma_position(s.drop_last(), name);
        assert forall|j: int| position(s, name) < j < s.len() implies (#[trigger] s[j]).0
            != name by {
            if j < s.len() - 1 {
                assert(s.drop_last()[j] == s[j]);
            }
        }
    }
}

/// The mapping of a list holds exactly the names of its pairs, each with the
/// value of its last pair.
pub proof fn lemma_label_map(s: Labels, name: Seq<char>)
    ensures
        label_map(s).dom().contains(name) <==> position(s, name) >= 0,
        position(s, name) >= 0 ==> label_map(s)[name] == s[position(s, name)].1,
    decreases s.len(),
{
    lemma_position(s, name);
    if s.len() > 0 {
        lemma_label_map(s.drop_last(), name);
        lemma_position(s.drop_last(), name);
        if s.last().0 != name && position(s, name) >= 0 {
            assert(s.drop_last()[position(s, name)] == s[position(s, name)]);
        }
    }
}

/// Setting a label changes the mapping at that name and nowhere else.
pub proof fn lemma_with_label(s: Labels, name: Seq<char>, value: Seq<char>)
    ensures
        label_map(with_label(s, name, value)) == label_map(s).insert(name, value),
        unique_names(s) ==> unique_names(with_label(s, name, value)),
    decreases s.len(),
{
    let p = position(s, name);
    let t = with_label(s, name, value);
    lemma_position(s, name);
    if p < 0 {
        assert(t.drop_last() =~= s);
    } else if p == s.len() - 1 {
        assert(t.drop_last() =~= s.drop_last());
        assert(label_map(t) =~= label_map(s).insert(name, value));
    } else {
        let shorter = s.drop_last();
        lemma_with_label(shorter, name, value);
        assert(t.drop_last() =~= with_label(shorter, name, value));
        assert(t.last() == s.last());
        assert(label_map(t) =~= label_map(s).insert(name, value));
    }
    if unique_names(s) {
        assert forall|i: int, j: int| 0 <= i < j < t.len() implies (#[trigger] t[i]).0 != (
        #[trigger] t[j]).0 by {
            if p < 0 {
                if j == s.len() {
                    assert(s[i].0 != name);
                } else {
                    assert(s[i].0 != s[j].0);
                }
            } else {
                assert(t[i].0 == s[i].0);
                assert(t[j].0 == s[j].0);
                assert(s[i].0 != s[j].0);
            }
        }
    }
}

/// What a list spells out after another depends only on what the other
/// spells out.
pub proof fn lemma_label_map_append(a: Labels, b: Labels, tail: Labels)
    requires
        label_map(a) == label_map(b),
    ensures
        label_map(a + tail) == label_map(b + tail),
    decreases tail.len(),
{
    if tail.len() == 0 {
        assert(a + tail =~= a);
        assert(b + tail =~= b);
    } else {
        lemma_label_map_append(a, b, tail.drop_last());
        assert((a + tail).drop_last() =~= a + tail.drop_last());
        assert((b + tail).drop_last() =~= b + tail.drop_last());
        assert((a + tail).last() == tail.last());
        assert((b + tail).last() == tail.last());
    }
}

/// In two lists, one after the other, the last pair of a name is that of the
/// second list where it has the name, and that of the first where it has not.
pub proof fn lemma_position_append(a: Labels, tail: Labels, name: Seq<char>)
    ensures
        position(a + tail, name) == if position(tail, name) >= 0 {
            a.len() + position(tail, name)
        } else {
            position(a, name)
        },
    decreases tail.len(),
{
    if tail.len() == 0 {
        assert(a + tail =~= a);
    } else {
        assert((a + tail).last() == tail.last());
        if tail.last().0 != name {
            lemma_position_append(a, tail.drop_last(), name);
            assert((a + tail).drop_last() =~= a + tail.drop_last());
        }
    }
}

/// Looks up the last pair of `labels` named `name`.
pub fn find_label(labels: &Vec<(String, String)>, name: &String) -> (res: Option<usize>)
    ensures
        res is None <==> position(pairs(labels@), name@) < 0,
        res matches Some(i) ==> i == position(pairs(labels@), name@),
{
    let ghost s = pairs(labels@);
    let mut i: usize = labels.len();
    proof {
        assert(s.take(i as int) =~= s);
    }
    while i > 0
        invariant
            i <= labels.len(),
            s == pairs(labels@),
            position(s, name@) == position(s.take(i as int), name@),
        decreases i,
    {
        i -= 1;
        proof {
            assert(s.take(i + 1).last() == s[i as int]);
            assert(s.take(i + 1).drop_last() =~= s.take(i as int));
        }
        if labels[i].0 == *name {
            return Some(i);
        }
    }
    proof {
        assert(s.take(0).len() == 0);
    }
    None
}

/// Sets the label `name` to `value`: in place where `labels` has the name, at
/// the end where it has not.
pub fn set_label(labels: &mut Vec<(String, String)>, name: String, value: String)
    ensures
        pairs(final(labels)@) == with_label(pairs(old(labels)@), name@, value@),
        label_map(pairs(final(labels)@)) == label_map(pairs(old(labels)@)).insert(name@, value@),
        unique_names(pairs(old(labels)@)) ==> unique_names(pairs(final(labels)@)),
{
    let ghost before = pairs(labels@);
    proof {
        lemma_with_label(before, name@, value@);
        lemma_position(before, name@);
    }
    match find_label(labels, &name) {
        Some(i) => {
            labels.set(i, (name, value));
            assert(pairs(labels@) =~= before.update(i as int, (name@, value@)));
        },
        None => {
            labels.push((name, value));
            assert(pairs(labels@) =~= before.push((name@, value@)));
        },
    }
}

/// Tests whether two lists of labels are the same label set.
pub fn same_label_set(a: &Vec<(String, String)>, b: &Vec<(String, String)>) -> (res: bool)
    ensures
        res == (label_map(pairs(a@)) == label_map(pairs(b@))),
{
    let ghost sa = pairs(a@);
    let ghost sb = pairs(b@);
    let mut i: usize = 0;
    while i < a.len()
        invariant
            i <= a.len(),
            sa == pairs(a@),
            sb == pairs(b@),
            forall|k: int|
                0 <= k < i ==> label_map(sb).dom().contains((#[trigger] sa[k]).0) && label_map(
                    sb,
                )[sa[k].0] == label_map(sa)[sa[k].0],
        decreases a.len() - i,
    {
        let name = &a[i].0;
        proof {
            lemma_label_map(sa, name@);
            lemma_label_map(sb, name@);
            lemma_position(sa, name@);
            lemma_position(sb, name@);
            assert(sa[i as int].0 == name@);
        }
        let in_a = find_label(a, name);
        let in_b = find_label(b, name);
        match (in_a, in_b) {
            (Some(pa), Some(pb)) => {
                proof {
                    assert(sa[pa as int].1 == a@[pa as int].1@);
                    assert(sb[pb as int].1 == b@[pb as int].1@);
                }
                if a[pa].1 != b[pb].1 {
                    assert(label_map(sa)[name@] != label_map(sb)[name@]);
                    return false;
                }
            },
            _ => {
                assert(label_map(sa).dom().contains(name@));
                assert(!label_map(sb).dom().contains(name@));
                return false;
            },
        }
        i += 1;
    }
    let mut j: usize = 0;
    while j < b.len()
        invariant
            j <= b.len(),
            sa == pairs(a@),
            sb == pairs(b@),
            forall|k: int| 0 <= k < j ==> label_map(sa).dom().contains((#[trigger] sb[k]).0),
        decreases b.len() - j,
    {
        let name = &b[j].0;
        proof {
            lemma_label_map(sa, name@);
            lemma_label_map(sb, name@);
            lemma_position(sb, name@);
            assert(sb[j as int].0 == name@);
        }
        if find_label(a, name).is_none() {
            assert(label_map(sb).dom().contains(name@));
            assert(!label_map(sa).dom().contains(name@));
            return false;
        }
        j += 1;
    }
    proof {
        let ma = label_map(sa);
        let mb = label_map(sb);
        assert forall|key: Seq<char>| ma.dom().contains(key) <==> mb.dom().contains(key) by {
            lemma_label_map(sa, key);
            lemma_label_map(sb, key);
            lemma_position(sa, key);
            lemma_position(sb, key);
            if ma.dom().contains(key) {
                assert(sa[position(sa, key)].0 == key);
            }
            if mb.dom().contains(key) {
                assert(sb[position(sb, key)].0 == key);
            }
        }
        assert forall|key: Seq<char>| ma.dom().contains(key) implies ma[key] == mb[key] by {
            lemma_label_map(sa, key);
            lemma_position(sa, key);
            assert(sa[position(sa, key)].0 == key);
        }
        assert(ma =~= mb);
    }
    true
}

/// A copy of a list of labels.
pub fn copy_labels(labels: &Vec<(String, String)>) -> (res: Vec<(String, String)>)
    ensures
        pairs(res@) == pairs(labels@),
{
    let mut out: Vec<(String, String)> = Vec::new();
    let mut i: usize = 0;
    while i < labels.len()
        invariant
            i <= labels.len(),
            out@.len() == i,
            forall|k: int| 0 <= k < i ==> out@[k].0@ == labels@[k].0@ && out@[k].1@ == labels@[k].1@,
        decreases labels.len() - i,
    {
        out.push((labels[i].0.clone(), labels[i].1.clone()));
        i += 1;
    }
    assert(pairs(out@) =~= pairs(labels@));
    out
}

} // verus!
