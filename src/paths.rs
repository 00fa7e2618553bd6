//! Ring file paths: a ring's name is the last component of its file's path,
//! and its file is the name joined to the ring directory.
use vstd::prelude::*;
use crate::text::push_char;

verus! {

/// `name` joined to the directory `dir` with one `/` between them; a name
/// that is already absolute stands for itself.
pub open spec fn joined(dir: Seq<char>, name: Seq<char>) -> Seq<char> {
    if name.len() > 0 && name[0] == '/' {
        name
    } else if dir.len() == 0 {
        name
    } else if dir.last() == '/' {
        dir + name
    } else {
        dir + seq!['/'] + name
    }
}

/// What follows the last `/` of a path (all of it when it holds none).
pub open spec fn basename(p: Seq<char>) -> Seq<char>
    decreases p.len(),
{
    if p.len() == 0 {
        seq![]
    } else if p.last() == '/' {
        seq![]
    } else {
        basename(p.drop_last()).push(p.last())
    }
}

/// The path of the ring file `filename` in `directory`.
pub fn compute_ring_buffer_path(directory: &str, filename: &str) -> (r: String)
    ensures
        r@ == joined(directory@, filename@),
{
    let nd = directory.unicode_len();
    let nf = filename.unicode_len();
    if nf > 0 && filename.get_char(0) == '/' {
        return filename.to_owned();
    }
    if nd == 0 {
        return filename.to_owned();
    }
    let mut r = directory.to_owned();
    if directory.get_char(nd - 1) != '/' {
        push_char(&mut r, '/');
    }
    r.append(filename);
    r
}

/// The file name at the end of a path: what follows its last `/`.
pub fn filename_from_path(name: &str) -> (r: String)
    ensures
        r@ == basename(name@),
{
    let n = name.unicode_len();
    let mut start: usize = n;
    assert(name@.subrange(0, n as int) =~= name@);
    assert(name@.subrange(n as int, n as int) =~= Seq::<char>::empty());
    while start > 0 && name.get_char(start - 1) != '/'
        invariant
            0 <= start <= n,
            n == name@.len(),
            basename(name@) == basename(name@.subrange(0, start as int)) + name@.subrange(
                start as int,
                n as int,
            ),
        decreases start,
    {
        let ghost p = name@.subrange(0, start as int);
        assert(p.drop_last() =~= name@.subrange(0, start - 1));
        assert(name@.subrange(start - 1, n as int) =~= seq![p.last()] + name@.subrange(
            start as int,
            n as int,
        ));
        start = start - 1;
    }
    if start > 0 {
        assert(basename(name@.subrange(0, start as int)) =~= seq![]);
    } else {
        assert(basename(name@.subrange(0, 0)) =~= seq![]);
    }
    assert(basename(name@) =~= name@.subrange(start as int, n as int));
    name.substring_char(start, n).to_owned()
}

} // verus!
