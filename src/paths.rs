//! Slash-separated path text: final components, trimming and joining.
use vstd::prelude::*;

verus! {

/// Index just after the last `/` of `s`, or 0 when it holds none.
pub open spec fn last_slash_end(s: Seq<char>) -> int
    decreases s.len(),
{
    if s.len() == 0 {
        0
    } else if s.last() == '/' {
        s.len() as int
    } else {
        last_slash_end(s.drop_last())
    }
}

/// The final normal component of a path: trailing separators and `.`
/// components are skipped; a path that ends in `..`, or has no component
/// left, has none.
pub open spec fn file_name(s: Seq<char>) -> Option<Seq<char>>
    decreases s.len(),
{
    if s.len() == 0 {
        None
    } else if s.last() == '/' {
        file_name(s.drop_last())
    } else {
        let k = last_slash_end(s);
        let seg = s.subrange(k, s.len() as int);
        if seg == seq!['.'] {
            if 0 <= k < s.len() {
                file_name(s.subrange(0, k))
            } else {
                None
            }
        } else if seg == seq!['.', '.'] {
            None
        } else {
            Some(seg)
        }
    }
}

/// A single plain component: not empty, no separator, not `.` or `..`.
pub open spec fn is_plain_name(name: Seq<char>) -> bool {
    &&& name.len() > 0
    &&& forall|i: int| 0 <= i < name.len() ==> #[trigger] name[i] != '/'
    &&& name != seq!['.']
    &&& name != seq!['.', '.']
}

proof fn lemma_last_slash_end_bounds(s: Seq<char>)
    ensures
        0 <= last_slash_end(s) <= s.len(),
        s.len() > 0 && s.last() != '/' ==> last_slash_end(s) < s.len(),
        forall|i: int| last_slash_end(s) <= i < s.len() ==> s[i] != '/',
    decreases s.len(),
{
    if s.len() > 0 && s.last() != '/' {
        assert(forall|i: int| 0 <= i < s.len() - 1 ==> s.drop_last()[i] == s[i]);
        lemma_last_slash_end_bounds(s.drop_last());
    }
}

proof fn lemma_last_slash_end_after(p: Seq<char>, name: Seq<char>)
    requires
        p.len() == 0 || p.last() == '/',
        forall|i: int| 0 <= i < name.len() ==> #[trigger] name[i] != '/',
    ensures
        last_slash_end(p + name) == p.len(),
    decreases name.len(),
{
    if name.len() == 0 {
        assert(p + name =~= p);
    } else {
        assert((p + name).drop_last() =~= p + name.drop_last());
        assert((p + name).last() == name[name.len() - 1]);
        lemma_last_slash_end_after(p, name.drop_last());
    }
}

/// The final component of a path does not depend on the directories above it:
/// a plain name, alone or under any directory, is its own final component.
pub proof fn basename_ignores_directories(dir: Seq<char>, name: Seq<char>)
    requires
        is_plain_name(name),
    ensures
        file_name(name) == Some(name),
        file_name(dir + seq!['/'] + name) == Some(name),
{
    let p = dir + seq!['/'];
    lemma_last_slash_end_after(Seq::<char>::empty(), name);
    assert(Seq::<char>::empty() + name =~= name);
    assert(name.subrange(0, name.len() as int) =~= name);
    lemma_last_slash_end_after(p, name);
    let s = p + name;
    assert(s.last() == name[name.len() - 1]);
    assert(s.subrange(p.len() as int, s.len() as int) =~= name);
}

/// The final component of `path`, as `std::path::Path::file_name` gives it for
/// `/`-separated paths.
pub fn basename(path: &str) -> (r: Option<String>)
    ensures
        r.is_some() == file_name(path@).is_some(),
        r.is_some() ==> file_name(path@) == Some(r.unwrap()@),
{
    let ghost s = path@;
    let mut end = path.unicode_len();
    assert(s.subrange(0, end as int) =~= s);
    loop
        invariant
            end <= s.len(),
            s == path@,
            file_name(s.subrange(0, end as int)) == file_name(s),
        decreases end,
    {
        let ghost cur = s.subrange(0, end as int);
        if end == 0 {
            return None;
        }
        if path.get_char(end - 1) == '/' {
            assert(cur.drop_last() =~= s.subrange(0, end - 1));
            end = end - 1;
        } else {
            let mut k = end;
            while k > 0 && path.get_char(k - 1) != '/'
                invariant
                    k <= end <= s.len(),
                    s == path@,
                    last_slash_end(s.subrange(0, k as int)) == last_slash_end(cur),
                    forall|i: int| k <= i < end ==> s[i] != '/',
                    cur == s.subrange(0, end as int),
                decreases k,
            {
                assert(s.subrange(0, k as int).drop_last() =~= s.subrange(0, k - 1));
                k = k - 1;
            }
            proof {
                if k > 0 {
                    assert(s.subrange(0, k as int).last() == '/');
                }
                lemma_last_slash_end_bounds(cur);
            }
            let seg = path.substring_char(k, end);
            assert(cur.subrange(k as int, end as int) =~= seg@);
            let len = end - k;
            if len == 1 && seg.get_char(0) == '.' {
                assert(seg@ =~= seq!['.']);
                assert(cur.subrange(0, k as int) =~= s.subrange(0, k as int));
                end = k;
            } else if len == 2 && seg.get_char(0) == '.' && seg.get_char(1) == '.' {
                assert(seg@ =~= seq!['.', '.']);
                return None;
            } else {
                assert(seg@ != seq!['.']);
                assert(seg@ != seq!['.', '.']);
                return Some(String::from_str(seg));
            }
        }
    }
}

/// Removes every leading `/`.
pub open spec fn trim_start_slashes(s: Seq<char>) -> Seq<char>
    decreases s.len(),
{
    if s.len() > 0 && s[0] == '/' {
        trim_start_slashes(s.drop_first())
    } else {
        s
    }
}

/// Removes every trailing `/`.
pub open spec fn trim_end_slashes(s: Seq<char>) -> Seq<char>
    decreases s.len(),
{
    if s.len() > 0 && s.last() == '/' {
        trim_end_slashes(s.drop_last())
    } else {
        s
    }
}

/// `s` without its leading and trailing separators.
pub fn trim_slashes(s: &str) -> (r: &str)
    ensures
        r@ == trim_end_slashes(trim_start_slashes(s@)),
{
    let n = s.unicode_len();
    let mut i: usize = 0;
    assert(s@.subrange(0, n as int) =~= s@);
    while i < n && s.get_char(i) == '/'
        invariant
            i <= n == s@.len(),
            trim_start_slashes(s@) == trim_start_slashes(s@.subrange(i as int, n as int)),
        decreases n - i,
    {
        assert(s@.subrange(i as int, n as int).drop_first() =~= s@.subrange(i + 1, n as int));
        i = i + 1;
    }
    let mut j: usize = n;
    while j > i && s.get_char(j - 1) == '/'
        invariant
            i <= j <= n == s@.len(),
            trim_start_slashes(s@) == s@.subrange(i as int, n as int),
            trim_end_slashes(s@.subrange(i as int, n as int)) == trim_end_slashes(
                s@.subrange(i as int, j as int),
            ),
        decreases j,
    {
        assert(s@.subrange(i as int, j as int).drop_last() =~= s@.subrange(i as int, j - 1));
        j = j - 1;
    }
    s.substring_char(i, j)
}

} // verus!
