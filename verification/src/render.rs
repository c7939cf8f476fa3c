//! Building configuration text line by line.
use vstd::prelude::*;

use crate::merge::section;
use crate::strmap::StrMap;
use crate::text::str_views;

verus! {

/// `pre + item + post` for each item, in order.
pub open spec fn each_line(items: Seq<Seq<char>>, pre: Seq<char>, post: Seq<char>) -> Seq<char>
    decreases items.len(),
{
    if items.len() == 0 {
        Seq::empty()
    } else {
        each_line(items.drop_last(), pre, post) + pre + items.last() + post
    }
}

/// The lines of two lists one after the other are the lines of the joined list.
pub proof fn lemma_each_line_concat(a: Seq<Seq<char>>, b: Seq<Seq<char>>, pre: Seq<char>, post: Seq<char>)
    ensures
        each_line(a + b, pre, post) == each_line(a, pre, post) + each_line(b, pre, post),
    decreases b.len(),
{
    if b.len() == 0 {
        assert(a + b =~= a);
        assert(each_line(a, pre, post) + Seq::<char>::empty() =~= each_line(a, pre, post));
    } else {
        assert((a + b).drop_last() =~= a + b.drop_last());
        assert((a + b).last() == b.last());
        lemma_each_line_concat(a, b.drop_last(), pre, post);
        assert(each_line(a + b, pre, post) =~= each_line(a, pre, post) + each_line(b, pre, post));
    }
}

/// Text that is empty or ends a line.
pub open spec fn ends_line(t: Seq<char>) -> bool {
    t.len() == 0 || t.last() == '\n'
}

/// Two texts that end lines end a line together.
pub proof fn lemma_ends_line_add(a: Seq<char>, b: Seq<char>)
    requires
        ends_line(a),
        ends_line(b),
    ensures
        ends_line(a + b),
        a.len() > 0 ==> (a + b).len() > 0,
{
    if b.len() > 0 {
        assert((a + b).last() == (a + b)[a.len() + b.len() - 1]);
    } else {
        assert(a + b =~= a);
    }
}

/// Lines that end with `post` end with its last character, when there are any.
pub proof fn lemma_each_line_last(items: Seq<Seq<char>>, pre: Seq<char>, post: Seq<char>)
    requires
        post.len() > 0,
    ensures
        each_line(items, pre, post).len() > 0 ==> each_line(items, pre, post).last() == post.last(),
{
    if items.len() > 0 {
        let e = each_line(items, pre, post);
        assert(e == each_line(items.drop_last(), pre, post) + pre + items.last() + post);
        assert(e.last() == e[e.len() - 1]);
    }
}

/// The line of the item at `i` stands after the lines of the items before it and before
/// the lines of the items after it.
pub proof fn lemma_each_line_at(items: Seq<Seq<char>>, pre: Seq<char>, post: Seq<char>, i: int)
    requires
        0 <= i < items.len(),
    ensures
        each_line(items, pre, post) == each_line(items.take(i), pre, post) + pre + items[i] + post
            + each_line(items.skip(i + 1), pre, post),
{
    let one = seq![items[i]];
    assert(items =~= items.take(i) + one + items.skip(i + 1));
    lemma_each_line_concat(items.take(i) + one, items.skip(i + 1), pre, post);
    lemma_each_line_concat(items.take(i), one, pre, post);
    assert(one.drop_last() =~= Seq::<Seq<char>>::empty());
    assert(one.last() == items[i]);
    assert(each_line(one.drop_last(), pre, post) == Seq::<char>::empty());
    assert(each_line(one, pre, post) =~= pre + items[i] + post);
    assert(each_line(items, pre, post) =~= each_line(items.take(i), pre, post) + pre + items[i] + post
        + each_line(items.skip(i + 1), pre, post));
}

/// `pre + key + mid + value + post` for each pair, in order.
pub open spec fn pair_lines(
    ps: Seq<(Seq<char>, Seq<char>)>,
    pre: Seq<char>,
    mid: Seq<char>,
    post: Seq<char>,
) -> Seq<char>
    decreases ps.len(),
{
    if ps.len() == 0 {
        Seq::empty()
    } else {
        pair_lines(ps.drop_last(), pre, mid, post) + pre + ps.last().0 + mid + ps.last().1 + post
    }
}

/// `key + value + "\n"` when the value is present.
pub open spec fn opt_line(key: Seq<char>, v: Option<String>) -> Seq<char> {
    match v {
        Some(x) => key + x@ + "\n"@,
        None => Seq::empty(),
    }
}

/// Appends `pre + item + post` for each item.
pub fn push_each(out: &mut String, items: &Vec<String>, pre: &str, post: &str)
    ensures
        final(out)@ == old(out)@ + each_line(str_views(items@), pre@, post@),
{
    let ghost start = out@;
    let mut i: usize = 0;
    assert(str_views(items@.take(0)) =~= Seq::<Seq<char>>::empty());
    assert(out@ =~= start + each_line(str_views(items@.take(0)), pre@, post@));
    while i < items.len()
        invariant
            i <= items@.len(),
            out@ == start + each_line(str_views(items@.take(i as int)), pre@, post@),
        decreases items@.len() - i,
    {
        let ghost before = out@;
        out.append(pre);
        out.append(items[i].as_str());
        out.append(post);
        proof {
            let t = str_views(items@.take(i + 1));
            assert(t.drop_last() =~= str_views(items@.take(i as int)));
            assert(t.last() == items@[i as int]@);
            assert(out@ =~= start + each_line(t, pre@, post@));
        }
        i = i + 1;
    }
    assert(items@.take(items@.len() as int) =~= items@);
}

/// Appends `pre + key + mid + value + post` for each pair of `m`.
pub fn push_pairs(out: &mut String, m: &StrMap<String>, pre: &str, mid: &str, post: &str)
    ensures
        final(out)@ == old(out)@ + pair_lines(m.pairs(), pre@, mid@, post@),
{
    let ghost start = out@;
    let n = m.len();
    let mut i: usize = 0;
    assert(m.pairs().take(0) =~= Seq::<(Seq<char>, Seq<char>)>::empty());
    assert(out@ =~= start + pair_lines(m.pairs().take(0), pre@, mid@, post@));
    while i < n
        invariant
            n == m.pairs().len(),
            i <= n,
            out@ == start + pair_lines(m.pairs().take(i as int), pre@, mid@, post@),
        decreases n - i,
    {
        let k = m.key_at(i);
        let v = m.value_at(i);
        out.append(pre);
        out.append(k.as_str());
        out.append(mid);
        out.append(v.as_str());
        out.append(post);
        proof {
            let t = m.pairs().take(i + 1);
            assert(t.drop_last() =~= m.pairs().take(i as int));
            assert(out@ =~= start + pair_lines(t, pre@, mid@, post@));
        }
        i = i + 1;
    }
    assert(m.pairs().take(n as int) =~= m.pairs());
}

/// Appends the `key=value` lines of the section `name` of `sections`, if it exists.
pub fn push_section(out: &mut String, sections: &StrMap<StrMap<String>>, name: &str)
    ensures
        final(out)@ == old(out)@ + pair_lines(section(sections.pairs(), name@), ""@, "="@, "\n"@),
{
    match sections.get(name) {
        Some(m) => {
            push_pairs(out, m, "", "=", "\n");
        },
        None => {
            assert(out@ =~= out@ + pair_lines(section(sections.pairs(), name@), ""@, "="@, "\n"@));
        },
    }
}

/// Appends `key + value + "\n"` when the value is present.
pub fn push_opt_line(out: &mut String, key: &str, v: &Option<String>)
    ensures
        final(out)@ == old(out)@ + opt_line(key@, *v),
{
    match v {
        Some(x) => {
            let ghost before = out@;
            out.append(key);
            out.append(x.as_str());
            out.append("\n");
            assert(out@ =~= before + opt_line(key@, *v));
        },
        None => {
            assert(out@ =~= out@ + opt_line(key@, *v));
        },
    }
}

} // verus!
