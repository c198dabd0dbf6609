//! The last component of a Unix path (`Path::file_name`).

use vstd::prelude::*;

use crate::text::{split_chars, str_chars};

verus! {

broadcast use vstd::string::group_string_axioms;

/// A piece between separators that names something: not empty and not `.`.
pub open spec fn is_named_component(c: Seq<char>) -> bool {
    c.len() > 0 && c != seq!['.']
}

/// The components of a Unix path that name something, in order: the pieces
/// between `/` separators, without empty pieces and `.` (which the path
/// normalises away).
pub open spec fn named_components(p: Seq<char>) -> Seq<Seq<char>> {
    split_chars(p, '/').filter(|c: Seq<char>| is_named_component(c))
}

/// `Path::file_name` on a Unix path: its last component, unless there is
/// none or it is `..`.
pub open spec fn path_file_name(p: Seq<char>) -> Option<Seq<char>> {
    let cs = named_components(p);
    if cs.len() == 0 || cs.last() == seq!['.', '.'] {
        None
    } else {
        Some(cs.last())
    }
}

/// The last named component among `pieces` and its position, as seen so far.
spec fn last_named(pieces: Seq<Seq<char>>) -> Seq<Seq<char>> {
    pieces.filter(|c: Seq<char>| is_named_component(c))
}

/// Whether `chars[a..b]` names something.
fn names_something(chars: &Vec<char>, a: usize, b: usize) -> (r: bool)
    requires
        a <= b <= chars@.len(),
    ensures
        r == is_named_component(chars@.subrange(a as int, b as int)),
{
    let r = b > a && !(b - a == 1 && chars[a] == '.');
    proof {
        let c = chars@.subrange(a as int, b as int);
        if b - a == 1 {
            if chars@[a as int] == '.' {
                assert(c =~= seq!['.']);
            } else {
                assert(c[0] != seq!['.'][0]);
            }
        } else if b > a {
            assert(c.len() != seq!['.'].len());
        }
    }
    r
}

/// Character bounds of the file name of `path`, if it has one.
pub fn file_name_bounds(path: &str) -> (r: Option<(usize, usize)>)
    ensures
        match r {
            Some((a, b)) => a <= b <= path@.len() && path_file_name(path@) == Some(
                path@.subrange(a as int, b as int),
            ),
            None => path_file_name(path@) is None,
        },
{
    let chars = str_chars(path);
    let n = chars.len();
    let mut start: usize = 0;
    let mut last: Option<(usize, usize)> = None;
    let ghost mut done: Seq<Seq<char>> = Seq::empty();
    proof {
        assert(chars@.take(0) =~= Seq::<char>::empty());
        assert(chars@.subrange(0, 0) =~= Seq::<char>::empty());
        assert(done.push(chars@.subrange(0, 0)) =~= seq![Seq::<char>::empty()]);
    }
    for i in 0..n
        invariant
            n == chars@.len(),
            chars@ == path@,
            start <= i,
            split_chars(chars@.take(i as int), '/') == done.push(chars@.subrange(start as int, i as int)),
            match last {
                Some((a, b)) => a <= b <= start && last_named(done).len() > 0 && last_named(done).last()
                    == chars@.subrange(a as int, b as int),
                None => last_named(done).len() == 0,
            },
    {
        proof {
            assert(chars@.take(i + 1).drop_last() =~= chars@.take(i as int));
            assert(chars@.take(i + 1).last() == chars@[i as int]);
        }
        if chars[i] == '/' {
            let named = names_something(&chars, start, i);
            proof {
                let piece = chars@.subrange(start as int, i as int);
                reveal_with_fuel(Seq::<_>::filter, 1);
                assert(done.push(piece).drop_last() =~= done);
                done = done.push(piece);
                assert(chars@.subrange(i + 1, i + 1) =~= Seq::<char>::empty());
            }
            if named {
                last = Some((start, i));
            }
            start = i + 1;
        } else {
            proof {
                let prev = done.push(chars@.subrange(start as int, i as int));
                assert(chars@.subrange(start as int, i as int).push(chars@[i as int])
                    =~= chars@.subrange(start as int, i + 1));
                assert(prev.update(prev.len() - 1, prev.last().push(chars@[i as int])) =~= done.push(
                    chars@.subrange(start as int, i + 1),
                ));
            }
        }
    }
    let named = names_something(&chars, start, n);
    proof {
        let piece = chars@.subrange(start as int, n as int);
        assert(chars@.take(n as int) =~= chars@);
        reveal_with_fuel(Seq::<_>::filter, 1);
        assert(done.push(piece).drop_last() =~= done);
        assert(named_components(path@) == last_named(done.push(piece)));
    }
    if named {
        last = Some((start, n));
    }
    match last {
        Some((a, b)) => {
            let dotdot = b - a == 2 && chars[a] == '.' && chars[a + 1] == '.';
            proof {
                let c = chars@.subrange(a as int, b as int);
                if b - a == 2 {
                    if dotdot {
                        assert(c =~= seq!['.', '.']);
                    } else {
                        assert(c[0] != seq!['.', '.'][0] || c[1] != seq!['.', '.'][1]);
                    }
                } else {
                    assert(c.len() != seq!['.', '.'].len());
                }
            }
            if dotdot {
                None
            } else {
                Some((a, b))
            }
        },
        None => None,
    }
}

/// Splitting `a / b`, where `b` holds no `/`, gives the pieces of `a` and
/// then `b`.
proof fn lemma_split_last_piece(a: Seq<char>, b: Seq<char>)
    requires
        forall|i: int| 0 <= i < b.len() ==> b[i] != '/',
    ensures
        split_chars(a + seq!['/'] + b, '/') == split_chars(a, '/').push(b),
    decreases b.len(),
{
    let s = a + seq!['/'] + b;
    if b.len() == 0 {
        assert(s.drop_last() =~= a);
        assert(s.last() == '/');
        assert(b =~= Seq::<char>::empty());
        assert(split_chars(s, '/') == split_chars(a, '/').push(Seq::<char>::empty()));
    } else {
        lemma_split_last_piece(a, b.drop_last());
        assert(s.drop_last() =~= a + seq!['/'] + b.drop_last());
        assert(s.last() == b.last());
        let prev = split_chars(s.drop_last(), '/');
        assert(prev.last() == b.drop_last());
        assert(b.drop_last().push(b.last()) =~= b);
        assert(prev.update(prev.len() - 1, prev.last().push(s.last())) =~= split_chars(a, '/').push(b));
    }
}

/// The file name of `dir/name` is `name`, for a name that holds no `/`
/// and is not empty, `.` or `..`, whatever the directory.
pub proof fn lemma_file_name_is_last_component(dir: Seq<char>, name: Seq<char>)
    requires
        forall|i: int| 0 <= i < name.len() ==> name[i] != '/',
        name.len() > 0,
        name != seq!['.'],
        name != seq!['.', '.'],
    ensures
        path_file_name(dir + seq!['/'] + name) == Some(name),
{
    broadcast use vstd::seq_lib::group_filter_ensures;

    lemma_split_last_piece(dir, name);
    let pred = |c: Seq<char>| is_named_component(c);
    let pieces = split_chars(dir, '/');
    assert(pieces.push(name).filter(pred) == pieces.filter(pred).push(name)) by {
        pieces.lemma_filter_push(name, pred);
    }
}

} // verus!
