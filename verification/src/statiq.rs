use vstd::prelude::*;
use vstd::string::StringExecFns;
use crate::template::chars_of;
use crate::text::opt_str_view;

verus! {

/// The position of the last `.` in a file name, or -1 when there is none.
pub open spec fn last_dot(s: Seq<char>) -> int
    decreases s.len(),
{
    if s.len() == 0 {
        -1
    } else if s.last() == '.' {
        s.len() - 1
    } else {
        last_dot(s.drop_last())
    }
}

/// What follows the last `.` of a file name (the whole name when it has no `.`).
pub open spec fn extension(s: Seq<char>) -> Seq<char> {
    s.skip(last_dot(s) + 1)
}

/// The media type under which a static file of this extension is served, if any.
pub open spec fn mime_of(ext: Seq<char>) -> Option<Seq<char>> {
    if ext == seq!['j', 's'] {
        Some("application/javascript"@)
    } else if ext == seq!['c', 's', 's'] {
        Some("text/css"@)
    } else {
        None
    }
}

proof fn lemma_last_dot(v: Seq<char>, k: int, m: int)
    requires
        0 <= k <= m <= v.len(),
        forall|t: int| k <= t < m ==> #[trigger] v[t] != '.',
        k == 0 || v[k - 1] == '.',
    ensures
        last_dot(v.take(m)) == k - 1,
    decreases m - k,
{
    if m > k {
        assert(v.take(m).drop_last() =~= v.take(m - 1));
        lemma_last_dot(v, k, m - 1);
    } else if k > 0 {
        assert(v.take(k).drop_last() =~= v.take(k - 1));
    } else {
        assert(v.take(0).len() == 0);
    }
}

/// The media type of a static file, by the extension of its name: JavaScript for `js`,
/// CSS for `css`, none for any other.
pub fn mime_type(filename: &str) -> (r: Option<&'static str>)
    ensures
        opt_str_view(r) == mime_of(extension(filename@)),
{
    let v = chars_of(filename);
    let n = v.len();
    let mut k = n;
    while k > 0 && v[k - 1] != '.'
        invariant
            k <= n == v.len(),
            forall|t: int| k <= t < n ==> #[trigger] v@[t] != '.',
        decreases k,
    {
        k = k - 1;
    }
    proof {
        lemma_last_dot(v@, k as int, n as int);
        assert(v@.take(n as int) =~= v@);
    }
    let ghost ext = v@.skip(k as int);
    if n - k == 2 && v[k] == 'j' && v[k + 1] == 's' {
        assert(ext =~= seq!['j', 's']);
        Some("application/javascript")
    } else if n - k == 3 && v[k] == 'c' && v[k + 1] == 's' && v[k + 2] == 's' {
        assert(ext =~= seq!['c', 's', 's']);
        assert(ext != seq!['j', 's']);
        Some("text/css")
    } else {
        assert(ext != seq!['j', 's']) by {
            if ext == seq!['j', 's'] {
                assert(ext.len() == n - k);
                assert(ext[0] == v@[k as int] && ext[1] == v@[k + 1]);
            }
        }
        assert(ext != seq!['c', 's', 's']) by {
            if ext == seq!['c', 's', 's'] {
                assert(ext.len() == n - k);
                assert(ext[0] == v@[k as int] && ext[1] == v@[k + 1] && ext[2] == v@[k + 2]);
            }
        }
        None
    }
}

/// Where a static file lies: the static directory, a `/`, then the file's name.
pub fn static_file_path(static_path: &str, subname: &str) -> (r: String)
    ensures
        r@ == static_path@ + seq!['/'] + subname@,
{
    proof {
        reveal_strlit("/");
    }
    let mut path = String::from_str(static_path);
    path.append("/");
    path.append(subname);
    path
}

} // verus!
