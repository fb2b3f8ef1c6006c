use vstd::prelude::*;
use crate::camera::CameraFile;

verus! {

/// The playlist line that names one file: `file '<path>'` and a newline.
pub open spec fn playlist_line(p: Seq<char>) -> Seq<char> {
    seq!['f', 'i', 'l', 'e', ' ', '\''] + p + seq!['\'', '\n']
}

/// A playlist naming the given paths in order, one line each.
pub open spec fn playlist_of(ps: Seq<Seq<char>>) -> Seq<char>
    decreases ps.len(),
{
    if ps.len() == 0 {
        Seq::empty()
    } else {
        playlist_of(ps.drop_last()) + playlist_line(ps.last())
    }
}

/// The paths of a sequence of segments.
pub open spec fn paths_of(files: Seq<&CameraFile>) -> Seq<Seq<char>> {
    files.map_values(|f: &CameraFile| f.path@)
}

/// The concatenation script for `files`, in their order.
pub fn playlist_text(files: &Vec<&CameraFile>) -> (r: String)
    ensures
        r@ == playlist_of(paths_of(files@)),
{
    let mut r = String::new();
    let mut i: usize = 0;
    proof {
        assert(paths_of(files@.subrange(0, 0)) =~= Seq::<Seq<char>>::empty());
    }
    while i < files.len()
        invariant
            i <= files@.len(),
            r@ == playlist_of(paths_of(files@.subrange(0, i as int))),
        decreases files@.len() - i,
    {
        let f = files[i];
        r.append("file '");
        r.append(f.path.as_str());
        r.append("'\n");
        proof {
            reveal_strlit("file '");
            reveal_strlit("'\n");
            let before = paths_of(files@.subrange(0, i as int));
            let after = paths_of(files@.subrange(0, i + 1));
            assert(after.drop_last() =~= before);
            assert(after.last() == f.path@);
            assert(r@ =~= playlist_of(before) + playlist_line(f.path@));
        }
        i = i + 1;
    }
    assert(files@.subrange(0, files@.len() as int) =~= files@);
    r
}

/// Index of the last newline in `t`, or -1 where it has none.
pub open spec fn last_newline(t: Seq<char>) -> int
    decreases t.len(),
{
    if t.len() == 0 {
        -1
    } else if t.last() == '\n' {
        t.len() - 1
    } else {
        last_newline(t.drop_last())
    }
}

/// The paths that a playlist names, read back line by line: each line
/// without its `file '` and its closing quote.
pub open spec fn read_playlist(t: Seq<char>) -> Seq<Seq<char>>
    decreases t.len(),
    via read_playlist_decreases
{
    if t.len() == 0 {
        Seq::empty()
    } else {
        let body = t.drop_last();
        let j = last_newline(body);
        let line = body.subrange(j + 1, body.len() as int);
        read_playlist(body.subrange(0, j + 1)).push(line.subrange(6, line.len() - 1))
    }
}

proof fn lemma_last_newline_bounds(t: Seq<char>)
    ensures
        -1 <= last_newline(t) < t.len(),
    decreases t.len(),
{
    if t.len() > 0 && t.last() != '\n' {
        lemma_last_newline_bounds(t.drop_last());
    }
}

#[via_fn]
proof fn read_playlist_decreases(t: Seq<char>) {
    if t.len() > 0 {
        lemma_last_newline_bounds(t.drop_last());
    }
}

proof fn lemma_last_newline_skips(a: Seq<char>, x: Seq<char>)
    requires
        forall|i: int| 0 <= i < x.len() ==> x[i] != '\n',
    ensures
        last_newline(a + x) == last_newline(a),
    decreases x.len(),
{
    if x.len() == 0 {
        assert(a + x =~= a);
    } else {
        assert((a + x).drop_last() =~= a + x.drop_last());
        lemma_last_newline_skips(a, x.drop_last());
    }
}

proof fn lemma_playlist_ends_in_newline(ps: Seq<Seq<char>>)
    ensures
        playlist_of(ps).len() == 0 || playlist_of(ps).last() == '\n',
        ps.len() == 0 ==> playlist_of(ps).len() == 0,
{
}

/// A playlist of paths without newlines reads back as those paths, in their
/// order, one line each.
pub proof fn lemma_playlist_round_trip(ps: Seq<Seq<char>>)
    requires
        forall|i: int, j: int| 0 <= i < ps.len() && 0 <= j < ps[i].len() ==> ps[i][j] != '\n',
    ensures
        read_playlist(playlist_of(ps)) == ps,
    decreases ps.len(),
{
    if ps.len() > 0 {
        let init = ps.drop_last();
        let p = ps.last();
        lemma_playlist_round_trip(init);
        let a = playlist_of(init);
        let line = seq!['f', 'i', 'l', 'e', ' ', '\''] + p + seq!['\''];
        let t = playlist_of(ps);
        assert(t.drop_last() =~= a + line);
        assert forall|i: int| 0 <= i < line.len() implies line[i] != '\n' by {
            if 6 <= i < 6 + p.len() {
                assert(line[i] == p[i - 6]);
            }
        }
        lemma_last_newline_skips(a, line);
        lemma_playlist_ends_in_newline(init);
        assert(last_newline(a) == a.len() - 1);
        assert((a + line).subrange(0, a.len() as int) =~= a);
        assert((a + line).subrange(a.len() as int, (a + line).len() as int) =~= line);
        assert(line.subrange(6, line.len() - 1) =~= p);
        assert(read_playlist(t) =~= ps);
    }
}

} // verus!
