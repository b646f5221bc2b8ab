//! Paths as `std::path` reads them on Unix: a sequence of components.
use vstd::prelude::*;

use crate::text::{chars_of, split_char, split_vec, views, push_all};

verus! {

/// The root component.
pub open spec fn root_comp() -> Seq<char> {
    seq!['/']
}

/// The current-directory component, kept only at the start of a relative path.
pub open spec fn cur_comp() -> Seq<char> {
    seq!['.']
}

/// The pieces that survive as components: not empty, not `.`.
pub open spec fn named_segments(segs: Seq<Seq<char>>) -> Seq<Seq<char>>
    decreases segs.len(),
{
    if segs.len() == 0 {
        Seq::empty()
    } else {
        let prev = named_segments(segs.drop_last());
        let s = segs.last();
        if s.len() == 0 || s == seq!['.'] {
            prev
        } else {
            prev.push(s)
        }
    }
}

/// `Path::components`: a root when the path starts with `/`, a leading `.` when a
/// relative path starts with it, then every other piece between slashes except empty
/// ones and `.`.
pub open spec fn components(p: Seq<char>) -> Seq<Seq<char>> {
    let segs = split_char(p, '/');
    let head = if p.len() > 0 && p[0] == '/' {
        seq![root_comp()]
    } else if segs.len() > 0 && segs[0] == seq!['.'] {
        seq![cur_comp()]
    } else {
        Seq::empty()
    };
    head + named_segments(segs)
}

/// A component that names a file or directory: not the root, `.` or `..`.
pub open spec fn is_normal(c: Seq<char>) -> bool {
    c != root_comp() && c != cur_comp() && c != seq!['.', '.']
}

pub open spec fn is_prefix<A>(p: Seq<A>, s: Seq<A>) -> bool {
    p.len() <= s.len() && s.take(p.len() as int) == p
}

fn is_dot(seg: &Vec<char>) -> (r: bool)
    ensures
        r == (seg@ == seq!['.']),
{
    if seg.len() == 1 && seg[0] == '.' {
        assert(seg@ =~= seq!['.']);
        true
    } else {
        proof {
            if seg@ == seq!['.'] {
                assert(seg@.len() == 1 && seg@[0] == '.');
            }
        }
        false
    }
}

proof fn lemma_split_nonempty(s: Seq<char>, c: char)
    ensures
        split_char(s, c).len() > 0,
    decreases s.len(),
{
    let k = crate::text::last_index_of(s, c);
    if k >= 0 {
        crate::text::lemma_last_index_bounds(s, c);
        lemma_split_nonempty(s.take(k), c);
    }
}

/// The components of `p`.
pub fn path_components(p: &str) -> (r: Vec<Vec<char>>)
    ensures
        views(r@) == components(p@),
{
    let v = chars_of(p);
    let segs = split_vec(&v, '/');
    proof {
        lemma_split_nonempty(v@, '/');
    }
    let ghost all = views(segs@);
    let mut out: Vec<Vec<char>> = Vec::new();
    if v.len() > 0 && v[0] == '/' {
        let mut r: Vec<char> = Vec::new();
        r.push('/');
        assert(r@ =~= root_comp());
        out.push(r);
    } else if is_dot(&segs[0]) {
        let mut d: Vec<char> = Vec::new();
        d.push('.');
        assert(d@ =~= cur_comp());
        out.push(d);
    }
    let ghost head = views(out@);
    assert(head == if p@.len() > 0 && p@[0] == '/' {
        seq![root_comp()]
    } else if all.len() > 0 && all[0] == seq!['.'] {
        seq![cur_comp()]
    } else {
        Seq::empty()
    }) by {
        assert(all[0] == segs@[0]@);
    }
    let mut i: usize = 0;
    assert(all.take(0) =~= Seq::<Seq<char>>::empty());
    while i < segs.len()
        invariant
            i <= segs.len(),
            all == views(segs@),
            views(out@) == head + named_segments(all.take(i as int)),
        decreases segs.len() - i,
    {
        let ghost pre = all.take(i + 1);
        assert(pre.drop_last() =~= all.take(i as int));
        assert(pre.last() == segs@[i as int]@);
        let seg = &segs[i];
        if seg.len() != 0 && !is_dot(seg) {
            let mut copy: Vec<char> = Vec::new();
            push_all(&mut copy, seg);
            let ghost before = views(out@);
            out.push(copy);
            assert(views(out@) =~= before.push(seg@));
        }
        i += 1;
    }
    assert(all.take(segs.len() as int) =~= all);
    out
}

/// `Path::file_name` over components: the last one when it names something.
pub open spec fn comp_file_name(comps: Seq<Seq<char>>) -> Option<Seq<char>> {
    if comps.len() > 0 && is_normal(comps.last()) {
        Some(comps.last())
    } else {
        None
    }
}

/// `Path::file_stem` of a file name: before its last `.`, unless that `.` leads.
pub open spec fn stem_of(name: Seq<char>) -> Seq<char> {
    let k = crate::text::last_index_of(name, '.');
    if k <= 0 {
        name
    } else {
        name.take(k)
    }
}

/// Whether a component is the root, `.` or `..`.
pub fn is_special(c: &Vec<char>) -> (r: bool)
    ensures
        r == !is_normal(c@),
{
    let root = c.len() == 1 && c[0] == '/';
    let dot = c.len() == 1 && c[0] == '.';
    let dotdot = c.len() == 2 && c[0] == '.' && c[1] == '.';
    proof {
        if c@ == seq!['/'] || c@ == seq!['.'] {
            assert(c@.len() == 1 && c@[0] == c@[0]);
        }
        if c@ == seq!['.', '.'] {
            assert(c@.len() == 2 && c@[0] == '.' && c@[1] == '.');
        }
        if root {
            assert(c@ =~= seq!['/']);
        }
        if dot {
            assert(c@ =~= seq!['.']);
        }
        if dotdot {
            assert(c@ =~= seq!['.', '.']);
        }
    }
    root || dot || dotdot
}

} // verus!
