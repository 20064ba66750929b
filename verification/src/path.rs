//! Paths as strings: `/` separates the components of a path, and its file
//! name is the last component that names something. File name and
//! extension are what `std::path::Path` gives for such a path.

use crate::text::{
    after_last, lemma_after_last, lemma_after_last_of_joined, lemma_after_last_without,
    suffix_after_last,
};
use vstd::prelude::*;
use vstd::string::*;

verus! {

/// The file name of a path: its last component, where empty components
/// (a trailing or doubled `/`) and components `.` are passed over. A path
/// without any other component (the empty path, `/`, `.`), and one whose
/// last component is `..`, has no file name.
pub open spec fn file_name(path: Seq<char>) -> Option<Seq<char>>
    decreases path.len(),
{
    if path.len() == 0 {
        None
    } else if path.last() == '/' || after_last(path, '/') == seq!['.'] {
        file_name(path.drop_last())
    } else if after_last(path, '/') == seq!['.', '.'] {
        None
    } else {
        Some(after_last(path, '/'))
    }
}

/// The extension of the file that a path names: what follows the last `.`
/// of the file name. A path without a file name has none, nor has a name
/// without a `.`, nor one whose only `.` leads it.
pub open spec fn extension(path: Seq<char>) -> Option<Seq<char>> {
    match file_name(path) {
        Some(name) => {
            let ext = after_last(name, '.');
            if ext.len() == name.len() || ext.len() + 1 == name.len() {
                None
            } else {
                Some(ext)
            }
        },
        None => None,
    }
}

/// The file name of a path by its last component `path.skip(start)`: unless
/// that is empty or `.`, it decides; else the file name is that of what
/// precedes it.
pub proof fn lemma_file_name_by_last_component(path: Seq<char>, start: int)
    requires
        0 <= start <= path.len(),
        after_last(path, '/') == path.skip(start),
    ensures
        file_name(path) == if path.skip(start).len() == 0 || path.skip(start) == seq!['.'] {
            file_name(path.take(start))
        } else if path.skip(start) == seq!['.', '.'] {
            None
        } else {
            Some(path.skip(start))
        },
{
    let last = path.skip(start);
    lemma_after_last(path, '/');
    if last.len() == 0 {
        assert(path.take(start) =~= path);
    } else {
        assert(path.last() == last.last());
        assert(last[last.len() - 1] != '/');
        if last == seq!['.'] {
            assert(path.drop_last() =~= path.take(start));
        }
    }
}

/// A file name is not empty, holds no `/`, and is neither `.` nor `..`.
pub proof fn lemma_file_name_is_a_component(path: Seq<char>)
    requires
        file_name(path) is Some,
    ensures
        file_name(path).unwrap().len() > 0,
        !file_name(path).unwrap().contains('/'),
        file_name(path).unwrap() != seq!['.'],
        file_name(path).unwrap() != seq!['.', '.'],
    decreases path.len(),
{
    if path.len() > 0 {
        if path.last() == '/' || after_last(path, '/') == seq!['.'] {
            lemma_file_name_is_a_component(path.drop_last());
        } else {
            lemma_after_last(path, '/');
            let last = after_last(path, '/');
            if last.len() == 0 {
                assert(path[path.len() - 1] == '/');
            }
        }
    }
}

/// The file name of an entry of a directory is the entry's name: where
/// `name` is a component that names something, it is the file name of
/// `name` itself and of `name` behind any directory and a `/`.
pub proof fn lemma_file_name_of_entry(dir: Seq<char>, name: Seq<char>)
    requires
        name.len() > 0,
        !name.contains('/'),
        name != seq!['.'],
        name != seq!['.', '.'],
    ensures
        file_name(name) == Some(name),
        file_name(dir + seq!['/'] + name) == Some(name),
{
    lemma_after_last_without(name, '/');
    lemma_after_last_of_joined(dir, '/', name);
    assert(name[name.len() - 1] == name.last());
    let joined = dir + seq!['/'] + name;
    assert(joined.last() == name.last());
}

/// The file name at the end of `path`, if it has one.
pub fn get_file_name<'a>(path: &'a str) -> (r: Option<&'a str>)
    ensures
        match r {
            Some(name) => file_name(path@) == Some(name@),
            None => file_name(path@) is None,
        },
{
    let n = path.unicode_len();
    // The component that is being read starts at `start`; `dots` says
    // whether it holds nothing but `.`; `found` is where the file name of
    // what precedes it lies.
    let mut start: usize = 0;
    let mut dots: bool = true;
    let mut found: Option<(usize, usize)> = None;
    let mut k: usize = 0;
    proof {
        assert(path@.take(0) =~= Seq::<char>::empty());
        assert(path@.subrange(0, 0) =~= Seq::<char>::empty());
    }
    for ch in it: path.chars()
        invariant
            n == path@.len(),
            it.seq() == path@,
            k == it.index(),
            start <= k <= n,
            after_last(path@.take(k as int), '/') == path@.subrange(start as int, k as int),
            dots <==> forall|i: int| start <= i < k ==> path@[i] == '.',
            match found {
                Some((a, b)) => a <= b <= start && file_name(path@.take(start as int)) == Some(
                    path@.subrange(a as int, b as int),
                ),
                None => file_name(path@.take(start as int)) is None,
            },
    {
        proof {
            let upto = path@.take(k + 1);
            assert(upto.last() == path@[k as int]);
            assert(upto.drop_last() =~= path@.take(k as int));
            if ch != '/' {
                assert(path@.subrange(start as int, k as int).push(ch) =~= path@.subrange(
                    start as int,
                    k + 1,
                ));
            } else {
                assert(path@.subrange(k + 1, k + 1) =~= Seq::<char>::empty());
            }
        }
        if ch == '/' {
            found = name_so_far(path, found, start, k, dots);
            proof {
                assert(path@.take(k + 1).last() == '/');
            }
            start = k + 1;
            dots = true;
        } else if ch != '.' {
            dots = false;
        }
        k = k + 1;
    }
    proof {
        assert(path@.take(n as int) =~= path@);
    }
    match name_so_far(path, found, start, n, dots) {
        Some((a, b)) => Some(path.substring_char(a, b)),
        None => None,
    }
}

/// Where the file name of the first `end` characters of `path` lies, given
/// where that of the first `start` lies and that the last component runs
/// from `start` to `end`.
fn name_so_far(
    path: &str,
    found: Option<(usize, usize)>,
    start: usize,
    end: usize,
    dots: bool,
) -> (r: Option<(usize, usize)>)
    requires
        start <= end <= path@.len(),
        after_last(path@.take(end as int), '/') == path@.subrange(start as int, end as int),
        dots <==> forall|i: int| start <= i < end ==> path@[i] == '.',
        match found {
            Some((a, b)) => a <= b <= start && file_name(path@.take(start as int)) == Some(
                path@.subrange(a as int, b as int),
            ),
            None => file_name(path@.take(start as int)) is None,
        },
    ensures
        match r {
            Some((a, b)) => a <= b <= end && file_name(path@.take(end as int)) == Some(
                path@.subrange(a as int, b as int),
            ),
            None => file_name(path@.take(end as int)) is None,
        },
{
    let len = end - start;
    proof {
        let upto = path@.take(end as int);
        let last = path@.subrange(start as int, end as int);
        assert(upto.skip(start as int) =~= last);
        assert(upto.take(start as int) =~= path@.take(start as int));
        lemma_file_name_by_last_component(upto, start as int);
        if len == 1 {
            assert(last[0] == path@[start as int]);
            if dots {
                assert(last =~= seq!['.']);
            }
        }
        if len == 2 {
            assert(last[0] == path@[start as int]);
            assert(last[1] == path@[start + 1]);
            if dots {
                assert(last =~= seq!['.', '.']);
            }
        }
    }
    if len == 0 || (len == 1 && dots) {
        found
    } else if len == 2 && dots {
        None
    } else {
        Some((start, end))
    }
}

/// The extension of the file that `path` names, if it has one.
pub fn get_extension<'a>(path: &'a str) -> (r: Option<&'a str>)
    ensures
        match r {
            Some(e) => extension(path@) == Some(e@),
            None => extension(path@) is None,
        },
{
    match get_file_name(path) {
        Some(name) => {
            let ext = suffix_after_last(name, '.');
            let n = name.unicode_len();
            let e = ext.unicode_len();
            proof {
                lemma_after_last(name@, '.');
            }
            if e == n || e + 1 == n {
                None
            } else {
                Some(ext)
            }
        },
        None => None,
    }
}

} // verus!
