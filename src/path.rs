use vstd::prelude::*;

verus! {

/// `p` without the separators at its end.
pub open spec fn trim_end_slashes(p: Seq<char>) -> Seq<char>
    decreases p.len(),
{
    if p.len() > 0 && p.last() == '/' {
        trim_end_slashes(p.drop_last())
    } else {
        p
    }
}

/// Index of the last separator in `p`, or -1 where it has none.
pub open spec fn last_slash(p: Seq<char>) -> int
    decreases p.len(),
{
    if p.len() == 0 {
        -1
    } else if p.last() == '/' {
        p.len() - 1
    } else {
        last_slash(p.drop_last())
    }
}

/// `name` placed under the directory `dir`; an absolute `name` stands alone.
pub open spec fn join_spec(dir: Seq<char>, name: Seq<char>) -> Seq<char> {
    if name.len() > 0 && name[0] == '/' {
        name
    } else if dir.len() == 0 || dir.last() == '/' {
        dir + name
    } else {
        dir + seq!['/'] + name
    }
}

/// The directory that holds `p`: none for the root or an empty path, the
/// empty path for a bare relative name. Separators are dropped from the end
/// of `p` and of the result, so `a//b/` has the parent `a`. The text is taken
/// as it stands: `.` and `..` are components like any other, so the parent of
/// `a/.` is `a` (where `std::path::Path`, which drops `.`, answers the empty
/// path).
pub open spec fn parent_spec(p: Seq<char>) -> Option<Seq<char>> {
    let t = trim_end_slashes(p);
    let i = last_slash(t);
    if t.len() == 0 {
        None
    } else if i < 0 {
        Some(Seq::empty())
    } else if trim_end_slashes(t.subrange(0, i)).len() == 0 {
        Some(seq!['/'])
    } else {
        Some(trim_end_slashes(t.subrange(0, i)))
    }
}

/// The last component of `p`, separators at its end dropped first; as in
/// `parent_spec`, `.` and `..` are taken as they stand.
pub open spec fn file_name_spec(p: Seq<char>) -> Seq<char> {
    let t = trim_end_slashes(p);
    t.subrange(last_slash(t) + 1, t.len() as int)
}

proof fn lemma_last_slash_bounds(p: Seq<char>)
    ensures
        -1 <= last_slash(p) < p.len(),
        last_slash(p) >= 0 ==> p[last_slash(p)] == '/',
        forall|j: int| last_slash(p) < j < p.len() ==> p[j] != '/',
    decreases p.len(),
{
    if p.len() > 0 && p.last() != '/' {
        lemma_last_slash_bounds(p.drop_last());
        assert forall|j: int| last_slash(p) < j < p.len() implies p[j] != '/' by {
            if j < p.len() - 1 {
                assert(p[j] == p.drop_last()[j]);
            }
        }
    }
}

/// Length of `p` once the separators at its end are dropped.
fn trimmed_len(p: &str) -> (n: usize)
    ensures
        n <= p@.len(),
        trim_end_slashes(p@) == p@.subrange(0, n as int),
{
    let mut n = p.unicode_len();
    assert(p@.subrange(0, n as int) =~= p@);
    while n > 0 && p.get_char(n - 1) == '/'
        invariant
            n <= p@.len(),
            trim_end_slashes(p@) == trim_end_slashes(p@.subrange(0, n as int)),
        decreases n,
    {
        assert(p@.subrange(0, n as int).drop_last() =~= p@.subrange(0, n - 1));
        n = n - 1;
    }
    n
}

/// Index of the last separator among the first `n` characters of `p`.
fn last_slash_before(p: &str, n: usize) -> (r: Option<usize>)
    requires
        n <= p@.len(),
    ensures
        match r {
            Some(i) => i < n && i as int == last_slash(p@.subrange(0, n as int)),
            None => last_slash(p@.subrange(0, n as int)) == -1,
        },
{
    let mut i = n;
    while i > 0
        invariant
            i <= n <= p@.len(),
            last_slash(p@.subrange(0, n as int)) == last_slash(p@.subrange(0, i as int)),
        decreases i,
    {
        if p.get_char(i - 1) == '/' {
            return Some(i - 1);
        }
        assert(p@.subrange(0, i as int).drop_last() =~= p@.subrange(0, i - 1));
        i = i - 1;
    }
    None
}

/// `name` placed under the directory `dir`.
pub fn join(dir: &str, name: &str) -> (r: String)
    ensures
        r@ == join_spec(dir@, name@),
{
    let n = name.unicode_len();
    if n > 0 && name.get_char(0) == '/' {
        return String::from_str(name);
    }
    let d = dir.unicode_len();
    let mut r = String::from_str(dir);
    if d > 0 && dir.get_char(d - 1) != '/' {
        r.append("/");
        proof {
            reveal_strlit("/");
        }
    }
    r.append(name);
    r
}

/// The directory that holds `p`.
pub fn parent(p: &str) -> (r: Option<String>)
    ensures
        r matches Some(s) ==> parent_spec(p@) == Some(s@),
        r is None <==> parent_spec(p@) is None,
{
    let n = trimmed_len(p);
    if n == 0 {
        return None;
    }
    match last_slash_before(p, n) {
        None => Some(String::new()),
        Some(i) => {
            let head = p.substring_char(0, i);
            proof {
                lemma_last_slash_bounds(p@.subrange(0, n as int));
                assert(p@.subrange(0, n as int).subrange(0, i as int) =~= head@);
            }
            let m = trimmed_len(head);
            if m == 0 {
                let r = String::from_str("/");
                proof {
                    reveal_strlit("/");
                }
                Some(r)
            } else {
                Some(String::from_str(head.substring_char(0, m)))
            }
        },
    }
}

/// The last component of `p`.
pub fn file_name(p: &str) -> (r: String)
    ensures
        r@ == file_name_spec(p@),
{
    let n = trimmed_len(p);
    let start = match last_slash_before(p, n) {
        None => 0,
        Some(i) => i + 1,
    };
    proof {
        lemma_last_slash_bounds(p@.subrange(0, n as int));
        assert(p@.subrange(0, n as int).subrange(start as int, n as int) =~= p@.subrange(
            start as int,
            n as int,
        ));
    }
    String::from_str(p.substring_char(start, n))
}

} // verus!
