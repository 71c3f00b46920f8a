//! Whether removing a series from the library also deletes its folder.
//! Deleting is only ever done when asked for, and only to a folder inside the
//! library's own `series` folder, compared component by component as paths
//! are.
use vstd::prelude::*;

use crate::export::joined_path;
use crate::text::{chars_of, find_char, find_char_from, lemma_find_char_from, slice_of, string_of};

verus! {

/// The named parts of a `/`-separated path, in order: empty parts (from
/// repeated or trailing separators) and `.` parts are left out.
pub open spec fn path_parts(p: Seq<char>) -> Seq<Seq<char>>
    decreases p.len(),
{
    if p.len() == 0 {
        Seq::empty()
    } else {
        let k = find_char_from(p, '/', 0);
        if k < 0 {
            if p == "."@ {
                Seq::empty()
            } else {
                seq![p]
            }
        } else {
            proof {
                lemma_find_char_from(p, '/', 0);
            }
            let seg = p.take(k);
            let rest = path_parts(p.skip(k + 1));
            if seg.len() == 0 || seg == "."@ {
                rest
            } else {
                seq![seg] + rest
            }
        }
    }
}

/// The components of a path: `/` first for an absolute path, `.` first for
/// one that starts at the current folder, then its named parts.
pub open spec fn components(p: Seq<char>) -> Seq<Seq<char>> {
    if p.len() > 0 && p[0] == '/' {
        seq!["/"@] + path_parts(p)
    } else if p == "."@ || (p.len() >= 2 && p[0] == '.' && p[1] == '/') {
        seq!["."@] + path_parts(p)
    } else {
        path_parts(p)
    }
}

/// Whether `p` lies at or under `base`: the components of `base` come first
/// among those of `p`.
pub open spec fn path_starts_with(p: Seq<char>, base: Seq<char>) -> bool {
    components(base).is_prefix_of(components(p))
}

/// The folder to delete when series files are removed: the series folder,
/// only when deleting was asked for and the folder lies inside the library's
/// `series` folder.
pub open spec fn deletion_target_of(folder: Seq<char>, root: Seq<char>, delete_files: bool) -> Option<
    Seq<char>,
> {
    if delete_files && path_starts_with(folder, joined_path(root, "series"@)) {
        Some(folder)
    } else {
        None
    }
}

/// Searching from `i` in `p` is searching from 0 in what follows `i`.
proof fn lemma_find_shift(p: Seq<char>, c: char, i: int, from: int)
    requires
        0 <= i <= from,
        i <= p.len(),
    ensures
        find_char_from(p.skip(i), c, from - i) == if find_char_from(p, c, from) < 0 {
            -1
        } else {
            find_char_from(p, c, from) - i
        },
    decreases p.len() - from,
{
    if from < p.len() {
        assert(p.skip(i)[from - i] == p[from]);
        if p[from] != c {
            lemma_find_shift(p, c, i, from + 1);
        }
    }
}

pub open spec fn parts_view(v: Seq<Vec<char>>) -> Seq<Seq<char>> {
    v.map_values(|x: Vec<char>| x@)
}

fn is_dot(s: &Vec<char>) -> (r: bool)
    ensures
        r == (s@ == "."@),
{
    proof {
        reveal_strlit(".");
    }
    assert("."@.len() == 1 && "."@[0] == '.');
    if s.len() == 1 && s[0] == '.' {
        assert(s@ =~= "."@);
        true
    } else {
        false
    }
}

fn path_parts_of(p: &Vec<char>) -> (r: Vec<Vec<char>>)
    ensures
        parts_view(r@) == path_parts(p@),
{
    proof {
        reveal_strlit(".");
    }
    let mut out: Vec<Vec<char>> = Vec::new();
    let mut i: usize = 0;
    assert(p@.skip(0) =~= p@);
    while i < p.len()
        invariant
            i <= p@.len(),
            parts_view(out@) + path_parts(p@.skip(i as int)) == path_parts(p@),
        decreases p@.len() - i,
    {
        let ghost q = p@.skip(i as int);
        proof {
            lemma_find_shift(p@, '/', i as int, i as int);
            lemma_find_char_from(p@, '/', i as int);
        }
        let ghost before = parts_view(out@);
        match find_char(p, '/', i) {
            Some(j) => {
                let seg = slice_of(p, i, j);
                assert(q.take(j - i) =~= seg@);
                assert(q.skip(j - i + 1) =~= p@.skip(j + 1));
                if !(seg.len() == 0 || is_dot(&seg)) {
                    out.push(seg);
                    assert(parts_view(out@) =~= before.push(seg@));
                    assert(before.push(seg@) + path_parts(p@.skip(j + 1)) =~= before + (seq![seg@]
                        + path_parts(p@.skip(j + 1))));
                }
                i = j + 1;
            },
            None => {
                let seg = slice_of(p, i, p.len());
                assert(q =~= seg@);
                if !is_dot(&seg) {
                    out.push(seg);
                    assert(parts_view(out@) =~= before.push(seg@));
                    assert(before.push(seg@) =~= before + seq![seg@]);
                }
                assert(p@.skip(p@.len() as int) =~= Seq::<char>::empty());
                assert(before + Seq::<Seq<char>>::empty() =~= before);
                assert(parts_view(out@) + Seq::<Seq<char>>::empty() =~= parts_view(out@));
                i = p.len();
            },
        }
    }
    assert(p@.skip(i as int) =~= Seq::<char>::empty());
    assert(parts_view(out@) + Seq::<Seq<char>>::empty() =~= parts_view(out@));
    out
}

fn components_of(p: &Vec<char>) -> (r: Vec<Vec<char>>)
    ensures
        parts_view(r@) == components(p@),
{
    proof {
        reveal_strlit(".");
        reveal_strlit("/");
    }
    let parts = path_parts_of(p);
    let mut out: Vec<Vec<char>> = Vec::new();
    assert("."@.len() == 1 && "."@[0] == '.');
    assert(p@ == "."@ <==> (p@.len() == 1 && p@[0] == '.')) by {
        if p@.len() == 1 && p@[0] == '.' {
            assert(p@ =~= "."@);
        }
    }
    if p.len() > 0 && p[0] == '/' {
        out.push(chars_of("/"));
    } else if (p.len() == 1 && p[0] == '.') || (p.len() >= 2 && p[0] == '.' && p[1] == '/') {
        out.push(chars_of("."));
    }
    let ghost head = parts_view(out@);
    let mut i: usize = 0;
    while i < parts.len()
        invariant
            i <= parts@.len(),
            parts_view(out@) == head + parts_view(parts@).take(i as int),
        decreases parts@.len() - i,
    {
        let ghost before = parts_view(out@);
        let part = slice_of(&parts[i], 0, parts[i].len());
        assert(part@ =~= parts@[i as int]@);
        assert(parts_view(parts@)[i as int] == parts@[i as int]@);
        out.push(part);
        assert(parts_view(out@) =~= before.push(part@));
        assert(parts_view(parts@).take(i + 1) =~= parts_view(parts@).take(i as int).push(part@));
        assert(parts_view(out@) =~= head + parts_view(parts@).take(i + 1));
        i = i + 1;
    }
    assert(parts_view(parts@).take(i as int) =~= parts_view(parts@));
    proof {
        assert(parts_view(out@) == head + path_parts(p@));
        if p@.len() > 0 && p@[0] == '/' {
            assert(head =~= seq!["/"@]);
        } else if p@ == "."@ || (p@.len() >= 2 && p@[0] == '.' && p@[1] == '/') {
            assert(head =~= seq!["."@]);
        } else {
            assert(head =~= Seq::<Seq<char>>::empty());
            assert(head + path_parts(p@) =~= path_parts(p@));
        }
    }
    out
}

fn same_chars(a: &Vec<char>, b: &Vec<char>) -> (r: bool)
    ensures
        r == (a@ == b@),
{
    if a.len() != b.len() {
        return false;
    }
    let mut i: usize = 0;
    while i < a.len()
        invariant
            i <= a@.len(),
            a@.len() == b@.len(),
            forall|k: int| 0 <= k < i ==> a@[k] == b@[k],
        decreases a@.len() - i,
    {
        if a[i] != b[i] {
            return false;
        }
        i = i + 1;
    }
    assert(a@ =~= b@);
    true
}

/// Whether path `p` lies at or under `base`, component by component.
pub fn starts_with_path(p: &str, base: &str) -> (r: bool)
    ensures
        r == path_starts_with(p@, base@),
{
    let pc = components_of(&chars_of(p));
    let bc = components_of(&chars_of(base));
    let ghost pv = parts_view(pc@);
    let ghost bv = parts_view(bc@);
    if bc.len() > pc.len() {
        return false;
    }
    let mut i: usize = 0;
    while i < bc.len()
        invariant
            i <= bc@.len() <= pc@.len(),
            pv == parts_view(pc@),
            bv == parts_view(bc@),
            pv == components(p@),
            bv == components(base@),
            forall|k: int| 0 <= k < i ==> bv[k] == pv[k],
        decreases bc@.len() - i,
    {
        assert(bv[i as int] == bc@[i as int]@);
        assert(pv[i as int] == pc@[i as int]@);
        if !same_chars(&bc[i], &pc[i]) {
            assert(bv[i as int] != pv.subrange(0, bv.len() as int)[i as int]);
            assert(!(bv =~= pv.subrange(0, bv.len() as int)));
            return false;
        }
        i = i + 1;
    }
    assert(bv =~= pv.subrange(0, bv.len() as int));
    true
}

/// The folder to delete when series `folder` is removed from the library at
/// `root`: none unless deleting was asked for, and none unless the folder
/// lies inside the library's own `series` folder.
pub fn deletion_target(folder: &str, root: &str, delete_files: bool) -> (r: Option<String>)
    ensures
        r matches Some(f) ==> f@ == folder@,
        r is Some <==> deletion_target_of(folder@, root@, delete_files) is Some,
        !delete_files ==> r is None,
{
    if !delete_files {
        return None;
    }
    let base = crate::export::join_path(&chars_of(root), "series");
    let base_text = string_of(base.as_slice());
    if starts_with_path(folder, base_text.as_str()) {
        Some(string_of(chars_of(folder).as_slice()))
    } else {
        None
    }
}

} // verus!
