use vstd::prelude::*;
use crate::models::{Tag, views};

verus! {

broadcast use vstd::string::group_string_axioms;

/// The pieces of `s` between commas, empty pieces left out, where `cur` holds the
/// characters of the piece read so far.
pub open spec fn split_from(s: Seq<char>, cur: Seq<char>) -> Seq<Seq<char>>
    decreases s.len(),
{
    if s.len() == 0 {
        if cur.len() == 0 {
            seq![]
        } else {
            seq![cur]
        }
    } else if s[0] == ',' {
        let rest = split_from(s.drop_first(), seq![]);
        if cur.len() == 0 {
            rest
        } else {
            seq![cur] + rest
        }
    } else {
        split_from(s.drop_first(), cur.push(s[0]))
    }
}

/// The tag names that a comma-joined list holds, in order, empty names left out.
pub open spec fn tag_list(s: Seq<char>) -> Seq<Seq<char>> {
    split_from(s, seq![])
}

proof fn lemma_split_step(s: Seq<char>, start: int, i: int)
    requires
        0 <= start <= i < s.len(),
    ensures
        s[i] == ',' ==> split_from(s.subrange(i, s.len() as int), s.subrange(start, i)) == (
            if i == start {
                split_from(s.subrange(i + 1, s.len() as int), seq![])
            } else {
                seq![s.subrange(start, i)] + split_from(s.subrange(i + 1, s.len() as int), seq![])
            }),
        s[i] != ',' ==> split_from(s.subrange(i, s.len() as int), s.subrange(start, i)) == split_from(
            s.subrange(i + 1, s.len() as int),
            s.subrange(start, i + 1),
        ),
{
    let t = s.subrange(i, s.len() as int);
    assert(t[0] == s[i]);
    assert(t.drop_first() =~= s.subrange(i + 1, s.len() as int));
    assert(s.subrange(start, i).push(s[i]) =~= s.subrange(start, i + 1));
    if i == start {
        assert(s.subrange(start, i).len() == 0);
    }
}

/// Decodes a comma-joined tag list: the pieces between commas, in order, with
/// the empty ones left out (`"a,,b,"` gives `a` and `b`).
pub fn parse_tags(s: &str) -> (r: Vec<String>)
    ensures
        views(r@) == tag_list(s@),
{
    let n = s.unicode_len();
    let mut out: Vec<String> = Vec::new();
    let mut start: usize = 0;
    let mut i: usize = 0;
    assert(s@.subrange(0, n as int) =~= s@);
    assert(s@.subrange(0, 0) =~= Seq::<char>::empty());
    assert(views(out@) =~= Seq::<Seq<char>>::empty());
    assert(Seq::<Seq<char>>::empty() + tag_list(s@) =~= tag_list(s@));
    while i < n
        invariant
            n == s@.len(),
            start <= i <= n,
            views(out@) + split_from(s@.subrange(i as int, n as int), s@.subrange(start as int, i as int))
                == tag_list(s@),
        decreases n - i,
    {
        proof {
            lemma_split_step(s@, start as int, i as int);
        }
        let c = s.get_char(i);
        if c == ',' {
            if i > start {
                let piece = s.substring_char(start, i).to_string();
                let ghost before = views(out@);
                out.push(piece);
                assert(views(out@) =~= before.push(piece@));
                assert(views(out@) + split_from(s@.subrange(i + 1, n as int), seq![]) =~= before + (
                    seq![s@.subrange(start as int, i as int)] + split_from(s@.subrange(i + 1, n as int), seq![])));
            }
            start = i + 1;
            assert(s@.subrange(start as int, i + 1) =~= Seq::<char>::empty());
        }
        i = i + 1;
    }
    let ghost before = views(out@);
    if start < n {
        let piece = s.substring_char(start, n).to_string();
        out.push(piece);
        assert(views(out@) =~= before.push(piece@));
    }
    assert(s@.subrange(n as int, n as int).len() == 0);
    proof {
        if start < n {
            assert(split_from(s@.subrange(n as int, n as int), s@.subrange(start as int, n as int))
                =~= seq![s@.subrange(start as int, n as int)]);
        }
    }
    assert(views(out@) =~= tag_list(s@));
    out
}

/// Whether `links` pairs `item` with the tag `tag_id`.
pub open spec fn is_linked(links: Seq<(i64, i64)>, item: i64, tag_id: i64) -> bool {
    exists|k: int| 0 <= k < links.len() && links[k] == (item, tag_id)
}

/// The distinct names of the tags linked to `item`, in the order of the tag table.
pub open spec fn linked_names(tags: Seq<Tag>, links: Seq<(i64, i64)>, item: i64) -> Seq<Seq<char>>
    decreases tags.len(),
{
    if tags.len() == 0 {
        seq![]
    } else {
        let prev = linked_names(tags.drop_last(), links, item);
        let t = tags.last();
        if is_linked(links, item, t.tag_id) && !prev.contains(t.name@) {
            prev.push(t.name@)
        } else {
            prev
        }
    }
}

fn has_link(links: &Vec<(i64, i64)>, item: i64, tag_id: i64) -> (r: bool)
    ensures
        r == is_linked(links@, item, tag_id),
{
    let mut k: usize = 0;
    while k < links.len()
        invariant
            k <= links.len(),
            forall|j: int| 0 <= j < k ==> links@[j] != (item, tag_id),
        decreases links.len() - k,
    {
        if links[k].0 == item && links[k].1 == tag_id {
            return true;
        }
        k = k + 1;
    }
    false
}

fn contains_name(names: &Vec<String>, name: &String) -> (r: bool)
    ensures
        r == views(names@).contains(name@),
{
    let mut k: usize = 0;
    while k < names.len()
        invariant
            k <= names.len(),
            forall|j: int| 0 <= j < k ==> names@[j]@ != name@,
        decreases names.len() - k,
    {
        if names[k] == *name {
            assert(views(names@)[k as int] == name@);
            return true;
        }
        k = k + 1;
    }
    false
}

/// The distinct names of the tags that `links` ties to `item`, in the order of
/// the tag table; empty where it has none.
pub fn tag_names(tags: &Vec<Tag>, links: &Vec<(i64, i64)>, item: i64) -> (r: Vec<String>)
    ensures
        views(r@) == linked_names(tags@, links@, item),
{
    let mut out: Vec<String> = Vec::new();
    let mut i: usize = 0;
    while i < tags.len()
        invariant
            i <= tags.len(),
            views(out@) == linked_names(tags@.take(i as int), links@, item),
        decreases tags.len() - i,
    {
        assert(tags@.take(i + 1).drop_last() =~= tags@.take(i as int));
        let linked = has_link(links, item, tags[i].tag_id);
        if linked && !contains_name(&out, &tags[i].name) {
            let ghost before = views(out@);
            out.push(tags[i].name.clone());
            assert(views(out@) =~= before.push(tags@[i as int].name@));
        }
        i = i + 1;
    }
    assert(tags@.take(tags.len() as int) =~= tags@);
    out
}

/// An item that no link names has no tag names: its list is empty, never absent.
pub proof fn lemma_untagged_has_no_names(tags: Seq<Tag>, links: Seq<(i64, i64)>, item: i64)
    requires
        forall|k: int| 0 <= k < links.len() ==> (#[trigger] links[k]).0 != item,
    ensures
        linked_names(tags, links, item) == Seq::<Seq<char>>::empty(),
    decreases tags.len(),
{
    if tags.len() > 0 {
        lemma_untagged_has_no_names(tags.drop_last(), links, item);
        assert(!is_linked(links, item, tags.last().tag_id));
    }
}

/// The links that are not `(item, tag_id)`.
pub open spec fn other_link(item: i64, tag_id: i64) -> spec_fn((i64, i64)) -> bool {
    |l: (i64, i64)| l != (item, tag_id)
}

/// Removes every copy of the link `(item, tag_id)`, keeping the others in
/// their order, and says whether there was one.
pub fn remove_link(links: &mut Vec<(i64, i64)>, item: i64, tag_id: i64) -> (r: bool)
    ensures
        final(links)@ == old(links)@.filter(other_link(item, tag_id)),
        r == is_linked(old(links)@, item, tag_id),
{
    let ghost orig = links@;
    let ghost keep = other_link(item, tag_id);
    let mut found = false;
    let mut i: usize = links.len();
    assert(orig.skip(i as int) =~= Seq::<(i64, i64)>::empty());
    assert(orig.take(i as int) =~= orig);
    proof {
        reveal(Seq::filter);
    }
    while i > 0
        invariant
            i <= orig.len(),
            keep == other_link(item, tag_id),
            links@ == orig.take(i as int) + orig.skip(i as int).filter(keep),
            found == exists|k: int| i <= k < orig.len() && orig[k] == (item, tag_id),
        decreases i,
    {
        i = i - 1;
        let ghost x = orig[i as int];
        let ghost rest = orig.skip(i + 1);
        proof {
            assert(orig.skip(i as int) =~= seq![x] + rest);
            Seq::filter_distributes_over_add(seq![x], rest, keep);
            reveal_with_fuel(Seq::filter, 2);
            assert(seq![x].drop_last() =~= Seq::<(i64, i64)>::empty());
            assert(orig.take(i + 1) =~= orig.take(i as int).push(x));
            assert(links@[i as int] == x);
        }
        if links[i].0 == item && links[i].1 == tag_id {
            links.remove(i);
            found = true;
            assert(links@ =~= orig.take(i as int) + rest.filter(keep));
        } else {
            assert(links@ =~= orig.take(i as int) + (seq![x] + rest).filter(keep));
        }
    }
    assert(orig.take(0) =~= Seq::<(i64, i64)>::empty());
    assert(orig.skip(0) =~= orig);
    assert(links@ =~= orig.filter(keep));
    found
}

} // verus!
