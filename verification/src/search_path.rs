//! Cutting the value of the search-path variable into directory candidates.

use vstd::prelude::*;

verus! {

/// The character that separates the directories of a search path on
/// POSIX-like systems.
pub const POSIX_SEPARATOR: char = ':';

/// The character that separates the directories of a search path on
/// Windows.
pub const WINDOWS_SEPARATOR: char = ';';

/// The pieces of `s` between occurrences of `sep`, in order. A text without
/// `sep` is its own single piece; two adjacent separators enclose an empty
/// piece.
pub open spec fn split_on(s: Seq<char>, sep: char) -> Seq<Seq<char>>
    decreases s.len(),
{
    if s.len() == 0 {
        seq![Seq::<char>::empty()]
    } else {
        let before = split_on(s.drop_last(), sep);
        if s.last() == sep {
            before.push(Seq::<char>::empty())
        } else {
            before.update(before.len() - 1, before.last().push(s.last()))
        }
    }
}

/// The texts that a sequence of strings stands for.
pub open spec fn texts(v: Seq<String>) -> Seq<Seq<char>> {
    Seq::new(v.len(), |i: int| v[i]@)
}

/// The directory candidates that a search-path value names where
/// `separator` is the platform's path-list separator: none when the
/// variable is unset or empty, else its pieces between separators.
pub open spec fn directories_of(search_path: Option<Seq<char>>, separator: char) -> Seq<
    Seq<char>,
> {
    match search_path {
        None => Seq::empty(),
        Some(s) => if s.len() == 0 {
            Seq::empty()
        } else {
            split_on(s, separator)
        },
    }
}

/// The view of an optional string slice.
pub open spec fn text_of(s: Option<&str>) -> Option<Seq<char>> {
    match s {
        None => None,
        Some(t) => Some(t@),
    }
}

/// The pieces put together again, with `sep` between neighbours.
pub open spec fn join_with(pieces: Seq<Seq<char>>, sep: char) -> Seq<char>
    decreases pieces.len(),
{
    if pieces.len() == 0 {
        Seq::empty()
    } else if pieces.len() == 1 {
        pieces[0]
    } else {
        join_with(pieces.drop_last(), sep) + seq![sep] + pieces.last()
    }
}

/// Splitting loses nothing and leaves no separator behind: there is at
/// least one piece, no piece holds the separator, and the pieces joined by
/// the separator are the text that was split.
pub proof fn law_split_joins(s: Seq<char>, sep: char)
    ensures
        split_on(s, sep).len() >= 1,
        forall|i: int, j: int|
            0 <= i < split_on(s, sep).len() && 0 <= j < split_on(s, sep)[i].len() ==> split_on(
                s,
                sep,
            )[i][j] != sep,
        join_with(split_on(s, sep), sep) == s,
    decreases s.len(),
{
    let pieces = split_on(s, sep);
    if s.len() == 0 {
        assert(join_with(pieces, sep) =~= s);
    } else {
        let t = s.drop_last();
        let c = s.last();
        let before = split_on(t, sep);
        law_split_joins(t, sep);
        assert(t.push(c) =~= s);
        if c == sep {
            assert(pieces.drop_last() =~= before);
            assert(join_with(pieces, sep) =~= t.push(c));
        } else if before.len() == 1 {
            assert(join_with(pieces, sep) =~= t.push(c));
        } else {
            assert(pieces.drop_last() =~= before.drop_last());
            assert(join_with(pieces, sep) =~= join_with(before, sep).push(c));
        }
    }
}

/// Cuts the value of the search-path variable into the ordered list of
/// directory candidates, at each occurrence of the platform's path-list
/// separator. An unset or empty variable names no directory.
pub fn search_directories(search_path: Option<&str>, separator: char) -> (dirs: Vec<String>)
    ensures
        texts(dirs@) == directories_of(text_of(search_path), separator),
{
    let mut dirs: Vec<String> = Vec::new();
    let path: &str = match search_path {
        None => {
            assert(texts(dirs@) =~= Seq::<Seq<char>>::empty());
            return dirs;
        },
        Some(p) => p,
    };
    let n: usize = path.unicode_len();
    if n == 0 {
        assert(texts(dirs@) =~= Seq::<Seq<char>>::empty());
        return dirs;
    }
    let mut start: usize = 0;
    let mut i: usize = 0;
    assert(path@.subrange(0, 0) =~= Seq::<char>::empty());
    assert(texts(dirs@).push(path@.subrange(0, 0)) =~= split_on(path@.subrange(0, 0), separator));
    while i < n
        invariant
            n == path@.len(),
            start <= i <= n,
            texts(dirs@).push(path@.subrange(start as int, i as int)) == split_on(
                path@.subrange(0, i as int),
                separator,
            ),
        decreases n - i,
    {
        let c: char = path.get_char(i);
        let ghost prefix = path@.subrange(0, i as int);
        let ghost next = path@.subrange(0, i + 1);
        let ghost piece = path@.subrange(start as int, i as int);
        let ghost done = texts(dirs@);
        proof {
            assert(next.drop_last() =~= prefix);
            assert(next.last() == c);
        }
        if c == separator {
            let dir: String = path.substring_char(start, i).to_owned();
            dirs.push(dir);
            start = i + 1;
            proof {
                assert(texts(dirs@) =~= done.push(piece));
                assert(path@.subrange(start as int, i + 1) =~= Seq::<char>::empty());
            }
        } else {
            proof {
                assert(path@.subrange(start as int, i + 1) =~= piece.push(c));
                assert(done.push(piece.push(c)) =~= done.push(piece).update(
                    done.push(piece).len() - 1,
                    done.push(piece).last().push(c),
                ));
            }
        }
        i = i + 1;
    }
    let last: String = path.substring_char(start, n).to_owned();
    proof {
        assert(path@.subrange(0, n as int) =~= path@);
        assert(texts(dirs@.push(last)) =~= texts(dirs@).push(path@.subrange(start as int, n as int)));
    }
    dirs.push(last);
    dirs
}

} // verus!
