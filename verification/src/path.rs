//! Absolute-path model: a path is a character sequence; the parent and the
//! final component are read off at the last `/`. The filesystem root `/` is
//! its own parent, which is what keeps ascending at the root a no-op.
use vstd::prelude::*;
use vstd::string::*;

verus! {

/// Index of the last `/` in `s`, or `-1` when `s` has none.
pub open spec fn last_slash(s: Seq<char>) -> int
    decreases s.len(),
{
    if s.len() == 0 {
        -1
    } else if s[s.len() - 1] == '/' {
        s.len() - 1
    } else {
        last_slash(s.drop_last())
    }
}

pub open spec fn root_path() -> Seq<char> {
    seq!['/']
}

pub open spec fn is_abs(s: Seq<char>) -> bool {
    s.len() > 0 && s[0] == '/'
}

/// An absolute path in the form navigation keeps it: only the root ends in `/`.
pub open spec fn is_normal_path(s: Seq<char>) -> bool {
    is_abs(s) && (s.len() == 1 || s[s.len() - 1] != '/')
}

pub open spec fn has_slash(s: Seq<char>) -> bool {
    exists|i: int| 0 <= i < s.len() && s[i] == '/'
}

/// The final path component: everything after the last `/`.
pub open spec fn last_component(s: Seq<char>) -> Seq<char> {
    s.subrange(last_slash(s) + 1, s.len() as int)
}

/// The directory containing `s`; the root is its own parent.
pub open spec fn parent_of(s: Seq<char>) -> Seq<char> {
    if last_slash(s) <= 0 {
        root_path()
    } else {
        s.subrange(0, last_slash(s))
    }
}

/// `name` appended below directory `d`.
pub open spec fn join(d: Seq<char>, n: Seq<char>) -> Seq<char> {
    if d.len() > 0 && d[d.len() - 1] == '/' {
        d + n
    } else {
        d + seq!['/'] + n
    }
}

pub proof fn lemma_last_slash_bounds(s: Seq<char>)
    ensures
        -1 <= last_slash(s) < s.len(),
        last_slash(s) >= 0 ==> s[last_slash(s)] == '/',
        forall|j: int| last_slash(s) < j < s.len() ==> s[j] != '/',
        has_slash(s) <==> last_slash(s) >= 0,
    decreases s.len(),
{
    if s.len() == 0 {
    } else if s[s.len() - 1] == '/' {
    } else {
        lemma_last_slash_bounds(s.drop_last());
        assert forall|j: int| last_slash(s) < j < s.len() implies s[j] != '/' by {
            if j < s.len() - 1 {
                assert(s[j] == s.drop_last()[j]);
            }
        }
        if has_slash(s) {
            let i = choose|i: int| 0 <= i < s.len() && s[i] == '/';
            assert(i < s.len() - 1);
            assert(s.drop_last()[i] == '/');
            assert(has_slash(s.drop_last()));
        }
        if has_slash(s.drop_last()) {
            let i = choose|i: int| 0 <= i < s.drop_last().len() && s.drop_last()[i] == '/';
            assert(s[i] == '/');
            assert(has_slash(s));
        }
    }
}

/// Appending slash-free text does not move the last slash.
pub proof fn lemma_last_slash_append(s: Seq<char>, t: Seq<char>)
    requires
        !has_slash(t),
    ensures
        last_slash(s + t) == last_slash(s),
    decreases t.len(),
{
    if t.len() == 0 {
        assert(s + t =~= s);
    } else {
        assert(t[t.len() - 1] != '/');
        assert((s + t)[(s + t).len() - 1] == t[t.len() - 1]);
        assert((s + t).drop_last() =~= s + t.drop_last());
        assert(!has_slash(t.drop_last())) by {
            if has_slash(t.drop_last()) {
                let i = choose|i: int|
                    0 <= i < t.drop_last().len() && t.drop_last()[i] == '/';
                assert(t[i] == '/');
            }
        }
        lemma_last_slash_append(s, t.drop_last());
    }
}

/// Joining a slash-free name below a normal absolute directory gives a path
/// whose parent and final component are exactly the two pieces again.
pub proof fn lemma_join_parts(d: Seq<char>, n: Seq<char>)
    requires
        is_normal_path(d),
        n.len() > 0,
        !has_slash(n),
    ensures
        parent_of(join(d, n)) == d,
        last_component(join(d, n)) == n,
        is_normal_path(join(d, n)),
{
    if d.len() == 1 {
        let s = d + n;
        assert(join(d, n) == s);
        assert(d =~= root_path());
        assert(last_slash(root_path()) == 0);
        lemma_last_slash_append(root_path(), n);
        assert(last_slash(s) == 0);
        assert(parent_of(s) == root_path());
        assert(last_component(s) =~= n);
        assert(s[s.len() - 1] == n[n.len() - 1]);
        assert(s[s.len() - 1] != '/');
    } else {
        let s = d + seq!['/'] + n;
        assert(join(d, n) == s);
        assert((d + seq!['/'])[(d + seq!['/']).len() - 1] == '/');
        assert(last_slash(d + seq!['/']) == d.len());
        lemma_last_slash_append(d + seq!['/'], n);
        assert(s =~= (d + seq!['/']) + n);
        assert(last_slash(s) == d.len());
        assert(parent_of(s) =~= d);
        assert(last_component(s) =~= n);
        assert(s[s.len() - 1] == n[n.len() - 1]);
        assert(s[s.len() - 1] != '/');
    }
}

/// Ascending from the root goes nowhere: the root is its own parent.
pub proof fn lemma_parent_of_root()
    ensures
        parent_of(root_path()) == root_path(),
{
    assert(last_slash(root_path()) == 0);
}

/// The parent of an absolute path is again absolute.
pub proof fn lemma_parent_abs(s: Seq<char>)
    requires
        is_abs(s),
    ensures
        is_abs(parent_of(s)),
{
    lemma_last_slash_bounds(s);
    if last_slash(s) > 0 {
        assert(parent_of(s)[0] == s[0]);
    }
}

/// Finds the last `/` in `s`: its index, or `None` when there is none.
pub fn find_last_slash(s: &str) -> (r: Option<usize>)
    ensures
        match r {
            Some(p) => p as int == last_slash(s@),
            None => last_slash(s@) == -1,
        },
{
    let len = s.unicode_len();
    let mut i: usize = 0;
    let mut found = false;
    let mut pos: usize = 0;
    proof {
        assert(s@.take(0) =~= Seq::<char>::empty());
    }
    while i < len
        invariant
            i <= len,
            len == s@.len(),
            found ==> pos as int == last_slash(s@.take(i as int)) && (pos as int) < i as int,
            !found ==> last_slash(s@.take(i as int)) == -1,
        decreases len - i,
    {
        let c = s.get_char(i);
        proof {
            assert(s@.take(i + 1).drop_last() =~= s@.take(i as int));
            assert(s@.take(i + 1)[i as int] == s@[i as int]);
        }
        if c == '/' {
            found = true;
            pos = i;
        }
        i = i + 1;
    }
    proof {
        assert(s@.take(len as int) =~= s@);
    }
    if found {
        Some(pos)
    } else {
        None
    }
}

/// The final component of `s`: everything after the last `/`.
pub fn base_name(s: &str) -> (r: String)
    ensures
        r@ == last_component(s@),
{
    let len = s.unicode_len();
    proof {
        lemma_last_slash_bounds(s@);
    }
    let start = match find_last_slash(s) {
        Some(p) => p + 1,
        None => 0,
    };
    let tail = s.substring_char(start, len);
    proof {
        assert(tail@ =~= last_component(s@));
    }
    tail.to_owned()
}

/// The directory containing `s`; the root is returned as its own parent.
pub fn parent_dir(s: &str) -> (r: String)
    ensures
        r@ == parent_of(s@),
{
    proof {
        lemma_last_slash_bounds(s@);
    }
    match find_last_slash(s) {
        Some(p) if p > 0 => {
            let head = s.substring_char(0, p);
            proof {
                assert(head@ =~= parent_of(s@));
            }
            head.to_owned()
        },
        _ => {
            let r = String::from_str("/");
            proof {
                reveal_strlit("/");
                assert(r@ =~= root_path());
            }
            r
        },
    }
}

/// Whether `s` is exactly the filesystem root `/`.
pub fn is_root(s: &str) -> (r: bool)
    ensures
        r == (s@ == root_path()),
{
    let len = s.unicode_len();
    if len == 1 && s.get_char(0) == '/' {
        proof {
            assert(s@ =~= root_path());
        }
        true
    } else {
        proof {
            if s@ == root_path() {
                assert(s@.len() == 1 && s@[0] == '/');
            }
        }
        false
    }
}

/// Whether `s` is an absolute path.
pub fn is_absolute(s: &str) -> (r: bool)
    ensures
        r == is_abs(s@),
{
    s.unicode_len() > 0 && s.get_char(0) == '/'
}

/// Whether `s` holds a `/` anywhere.
pub fn contains_slash(s: &str) -> (r: bool)
    ensures
        r == has_slash(s@),
{
    let len = s.unicode_len();
    let mut i: usize = 0;
    while i < len
        invariant
            i <= len,
            len == s@.len(),
            forall|j: int| 0 <= j < i ==> s@[j] != '/',
        decreases len - i,
    {
        if s.get_char(i) == '/' {
            return true;
        }
        i = i + 1;
    }
    false
}

/// `name` appended below directory `dir`, with a separating `/` unless `dir`
/// already ends in one.
pub fn join_path(dir: &str, name: &str) -> (r: String)
    ensures
        r@ == join(dir@, name@),
{
    let dlen = dir.unicode_len();
    let mut out = dir.to_owned();
    if dlen == 0 || dir.get_char(dlen - 1) != '/' {
        out.append("/");
        proof {
            reveal_strlit("/");
            assert(out@ =~= dir@ + seq!['/']);
        }
    }
    out.append(name);
    proof {
        if dlen == 0 || dir@[dlen - 1] != '/' {
            assert(out@ =~= dir@ + seq!['/'] + name@);
        }
    }
    out
}

} // verus!
