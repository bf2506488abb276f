//! Paths as text, and the rule that tells a date folder from an album.
//!
//! A path is read as a sequence of characters cut at each `/`. Empty pieces
//! and `.` are passed over, so that `a/b`, `a//b`, `a/./b` and `a/b/` name the
//! same place. The directory that directly holds a file is named by the
//! component before the last one.

use vstd::prelude::*;

verus! {

/// The character that separates the components of a path.
pub open spec fn is_separator(c: char) -> bool {
    c == '/'
}

/// The pieces of `path` between its separators, from left to right. A piece
/// may be empty; there is always at least one.
pub open spec fn pieces(path: Seq<char>) -> Seq<Seq<char>>
    decreases path.len(),
{
    if path.len() == 0 {
        seq![Seq::<char>::empty()]
    } else {
        let before = pieces(path.drop_last());
        if is_separator(path.last()) {
            before.push(Seq::<char>::empty())
        } else {
            before.drop_last().push(before.last().push(path.last()))
        }
    }
}

/// Whether a piece is `.`, which stands for the directory it is found in.
pub open spec fn is_dot(piece: Seq<char>) -> bool {
    piece.len() == 1 && piece[0] == '.'
}

/// Whether a piece is `..`, which stands for the directory above.
pub open spec fn is_dot_dot(piece: Seq<char>) -> bool {
    piece.len() == 2 && piece[0] == '.' && piece[1] == '.'
}

/// Whether a piece counts as a component: it is neither empty nor `.`.
pub open spec fn is_component(piece: Seq<char>) -> bool {
    piece.len() > 0 && !is_dot(piece)
}

/// The components of `path`: its pieces without the empty ones and without
/// `.`, so that `a/b`, `a//b`, `a/./b` and `a/b/` have the same components.
pub open spec fn components(path: Seq<char>) -> Seq<Seq<char>> {
    pieces(path).filter(|piece: Seq<char>| is_component(piece))
}

/// The name of the directory that directly holds `path`: the component before
/// the last one, unless that is `..`. A path of fewer than two components
/// has none.
pub open spec fn parent_dir_name(path: Seq<char>) -> Option<Seq<char>> {
    let names = components(path);
    if names.len() >= 2 && !is_dot_dot(names[names.len() - 2]) {
        Some(names[names.len() - 2])
    } else {
        None
    }
}

/// Whether a directory name begins with `20`, as the name of a folder made
/// for a date does.
pub open spec fn has_date_prefix(name: Seq<char>) -> bool {
    name.len() >= 2 && name[0] == '2' && name[1] == '0'
}

/// Whether the file at `path` lies directly in a date folder. Every other
/// file, one without a parent directory name included, lies in an album.
pub open spec fn is_date_like(path: Seq<char>) -> bool {
    match parent_dir_name(path) {
        Some(name) => has_date_prefix(name),
        None => false,
    }
}

/// The components of `path` that a separator has closed.
spec fn closed_components(path: Seq<char>) -> Seq<Seq<char>> {
    pieces(path).drop_last().filter(|piece: Seq<char>| is_component(piece))
}

/// The piece of `path` after its last separator.
spec fn open_piece(path: Seq<char>) -> Seq<char> {
    pieces(path).last()
}

/// What one more character does to the pieces of a path.
proof fn lemma_pieces_push(path: Seq<char>, c: char)
    ensures
        pieces(path).len() >= 1,
        is_separator(c) ==> pieces(path.push(c)) == pieces(path).push(Seq::<char>::empty()),
        !is_separator(c) ==> pieces(path.push(c)) == pieces(path).drop_last().push(
            open_piece(path).push(c),
        ),
    decreases path.len(),
{
    if path.len() > 0 {
        lemma_pieces_push(path.drop_last(), path.last());
    }
    assert(path.push(c).drop_last() == path);
}

/// What one more character does to the closed components and to the open
/// piece of a path.
proof fn lemma_scan_step(path: Seq<char>, c: char)
    ensures
        is_separator(c) ==> open_piece(path.push(c)) == Seq::<char>::empty(),
        is_separator(c) && is_component(open_piece(path)) ==> closed_components(path.push(c))
            == closed_components(path).push(open_piece(path)),
        is_separator(c) && !is_component(open_piece(path)) ==> closed_components(path.push(c))
            == closed_components(path),
        !is_separator(c) ==> open_piece(path.push(c)) == open_piece(path).push(c),
        !is_separator(c) ==> closed_components(path.push(c)) == closed_components(path),
{
    lemma_pieces_push(path, c);
    let old_pieces = pieces(path);
    let keep = |piece: Seq<char>| is_component(piece);
    if is_separator(c) {
        assert(pieces(path.push(c)).drop_last() == old_pieces);
        assert(old_pieces == old_pieces.drop_last().push(old_pieces.last()));
        old_pieces.drop_last().lemma_filter_push(old_pieces.last(), keep);
    } else {
        assert(pieces(path.push(c)).drop_last() == old_pieces.drop_last());
    }
}

/// The components of a path are its closed components and, where it counts
/// as one, its open piece.
proof fn lemma_components_split(path: Seq<char>)
    ensures
        is_component(open_piece(path)) ==> components(path) == closed_components(path).push(
            open_piece(path),
        ),
        !is_component(open_piece(path)) ==> components(path) == closed_components(path),
{
    if path.len() > 0 {
        lemma_pieces_push(path.drop_last(), path.last());
    }
    let all = pieces(path);
    let keep = |piece: Seq<char>| is_component(piece);
    assert(all == all.drop_last().push(all.last()));
    all.drop_last().lemma_filter_push(all.last(), keep);
}

/// Whether the last of `names` begins with `20`.
spec fn last_is_date(names: Seq<Seq<char>>) -> bool {
    names.len() >= 1 && has_date_prefix(names[names.len() - 1])
}

/// Whether the one before the last of `names` begins with `20`.
spec fn before_last_is_date(names: Seq<Seq<char>>) -> bool {
    names.len() >= 2 && has_date_prefix(names[names.len() - 2])
}

/// Tells whether the directory that directly holds `path` is a date folder.
pub fn parent_dir_is_date(path: &str) -> (date: bool)
    ensures
        date == is_date_like(path@),
{
    let mut before_last = false;
    let mut last = false;
    let mut piece_len: u8 = 0;
    let mut piece_is_dot = false;
    let mut piece_starts_with_two = false;
    let mut piece_is_date = false;
    let chars = path.chars();
    for c in it: chars
        invariant
            it.seq() == path@,
            last == last_is_date(closed_components(path@.take(it.index() as int))),
            before_last == before_last_is_date(closed_components(path@.take(it.index() as int))),
            piece_len == 0 <==> open_piece(path@.take(it.index() as int)).len() == 0,
            piece_len == 1 <==> open_piece(path@.take(it.index() as int)).len() == 1,
            piece_len <= 2,
            piece_is_dot == is_dot(open_piece(path@.take(it.index() as int))),
            piece_starts_with_two == (open_piece(path@.take(it.index() as int)).len() >= 1
                && open_piece(path@.take(it.index() as int))[0] == '2'),
            piece_is_date == has_date_prefix(open_piece(path@.take(it.index() as int))),
    {
        proof {
            let seen = path@.take(it.index() as int);
            lemma_scan_step(seen, c);
            assert(path@.take(it.index() + 1) == seen.push(c));
        }
        if c == '/' {
            if piece_len > 0 && !piece_is_dot {
                before_last = last;
                last = piece_is_date;
            }
            piece_len = 0;
            piece_is_dot = false;
            piece_starts_with_two = false;
            piece_is_date = false;
        } else if piece_len == 0 {
            piece_len = 1;
            piece_is_dot = c == '.';
            piece_starts_with_two = c == '2';
        } else if piece_len == 1 {
            piece_len = 2;
            piece_is_dot = false;
            piece_is_date = piece_starts_with_two && c == '0';
        }
    }
    proof {
        assert(path@.take(path@.len() as int) == path@);
        lemma_components_split(path@);
    }
    if piece_len > 0 && !piece_is_dot {
        last
    } else {
        before_last
    }
}

} // verus!
