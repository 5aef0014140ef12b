use vstd::prelude::*;
use crate::template::{append_chars, chars_of, push_char};

verus! {

/// The number of characters before the first `/` (all of them when there is none).
pub open spec fn segment_len(s: Seq<char>) -> nat
    decreases s.len(),
{
    if s.len() == 0 || s[0] == '/' {
        0
    } else {
        1 + segment_len(s.drop_first())
    }
}

/// A segment that names no component of a path: an empty one (from a repeated or final
/// `/`) or `.`.
pub open spec fn is_skipped(seg: Seq<char>) -> bool {
    seg.len() == 0 || seg == seq!['.']
}

/// The components named by the segments of `s`, joined by `/`, with a `/` before the first
/// one when `started` says that a component came before.
pub open spec fn join_components(s: Seq<char>, started: bool) -> Seq<char>
    decreases s.len(),
{
    if s.len() == 0 {
        Seq::empty()
    } else {
        let k = segment_len(s);
        let seg = s.take(k as int);
        let rest = if k < s.len() {
            s.skip((k + 1) as int)
        } else {
            Seq::<char>::empty()
        };
        if is_skipped(seg) {
            join_components(rest, started)
        } else {
            (if started {
                seq!['/']
            } else {
                Seq::empty()
            }) + seg + join_components(rest, true)
        }
    }
}

/// What follows the first segment of `s` and the `/` that ends it.
pub open spec fn after_segment(s: Seq<char>) -> Seq<char> {
    if segment_len(s) < s.len() {
        s.skip((segment_len(s) + 1) as int)
    } else {
        Seq::empty()
    }
}

/// A path written in the one form that all spellings of it share, as std's `Path` compares
/// paths by their components: a root `/` when it has one, a leading `.` of a relative path,
/// then the other components joined by single `/`s, with repeated and final `/`s and the
/// other `.` components gone.
pub open spec fn path_key(s: Seq<char>) -> Seq<char> {
    if s.len() > 0 && s[0] == '/' {
        seq!['/'] + join_components(s.drop_first(), false)
    } else if s.take(segment_len(s) as int) == seq!['.'] {
        seq!['.'] + join_components(after_segment(s), true)
    } else {
        join_components(s, false)
    }
}

proof fn lemma_segment_len(v: Seq<char>, i: int, j: int)
    requires
        0 <= i <= j <= v.len(),
        forall|t: int| i <= t < j ==> #[trigger] v[t] != '/',
        j == v.len() || v[j] == '/',
    ensures
        segment_len(v.skip(i)) == j - i,
    decreases j - i,
{
    if i < j {
        assert(v.skip(i).drop_first() =~= v.skip(i + 1));
        lemma_segment_len(v, i + 1, j);
    }
}

/// The end of the segment of `v` that starts at `i`.
fn segment_end(v: &Vec<char>, i: usize) -> (j: usize)
    requires
        i <= v.len(),
    ensures
        i <= j <= v.len(),
        segment_len(v@.skip(i as int)) == j - i,
        forall|t: int| i <= t < j ==> #[trigger] v@[t] != '/',
{
    let n = v.len();
    let mut j = i;
    while j < n && v[j] != '/'
        invariant
            n == v.len(),
            i <= j <= n,
            forall|t: int| i <= t < j ==> #[trigger] v@[t] != '/',
        decreases n - j,
    {
        j = j + 1;
    }
    proof {
        lemma_segment_len(v@, i as int, j as int);
    }
    j
}

/// The form of a path that all its spellings share (see `path_key`).
pub fn path_key_of(path: &str) -> (r: String)
    ensures
        r@ == path_key(path@),
{
    let v = chars_of(path);
    let n = v.len();
    let mut out = String::new();
    let mut i: usize;
    let mut started: bool;
    let ghost target = path_key(v@);
    if n > 0 && v[0] == '/' {
        push_char(&mut out, '/');
        i = 1;
        started = false;
        assert(v@.drop_first() =~= v@.skip(1));
    } else {
        let j = segment_end(&v, 0);
        assert(v@.skip(0) =~= v@);
        if j == 1 && v[0] == '.' {
            assert(v@.take(1) =~= seq!['.']);
            push_char(&mut out, '.');
            started = true;
            if j < n {
                i = j + 1;
            } else {
                i = n;
            }
        } else {
            assert(v@.take(j as int) != seq!['.']) by {
                if v@.take(j as int) == seq!['.'] {
                    assert(v@.take(j as int)[0] == v@[0]);
                }
            }
            i = 0;
            started = false;
        }
    }
    assert(out@ + join_components(v@.skip(i as int), started) == target) by {
        if n > 0 && v@[0] == '/' {
        } else if i > 0 {
            if i == n {
                assert(v@.skip(n as int) =~= Seq::<char>::empty());
            }
        }
    }
    while i < n
        invariant
            n == v.len(),
            i <= n,
            v@ == path@,
            target == path_key(v@),
            out@ + join_components(v@.skip(i as int), started) == target,
        decreases n - i,
    {
        let ghost before = out@;
        let ghost rest = v@.skip(i as int);
        let ghost was_started = started;
        let j = segment_end(&v, i);
        let skipped = j == i || (j == i + 1 && v[i] == '.');
        assert(rest.take(j - i) =~= v@.subrange(i as int, j as int));
        assert(skipped == is_skipped(rest.take(j - i))) by {
            if rest.take(j - i) == seq!['.'] {
                assert(rest.take(j - i)[0] == v@[i as int]);
            }
            if j == i + 1 && v@[i as int] == '.' {
                assert(v@.subrange(i as int, j as int) =~= seq!['.']);
            }
        }
        if !skipped {
            if started {
                push_char(&mut out, '/');
            }
            append_chars(&mut out, &v, i, j);
            started = true;
        }
        let next = if j < n {
            j + 1
        } else {
            n
        };
        proof {
            if j < n {
                assert(rest.skip(j - i + 1) =~= v@.skip(j + 1));
            } else {
                assert(v@.skip(n as int) =~= Seq::<char>::empty());
            }
            if !skipped {
                if was_started {
                    assert(out@ =~= before + seq!['/'] + v@.subrange(i as int, j as int));
                } else {
                    assert(out@ =~= before + Seq::<char>::empty() + v@.subrange(i as int, j as int));
                }
            }
            assert(out@ + join_components(v@.skip(next as int), started) =~= before
                + join_components(rest, was_started));
        }
        i = next;
    }
    assert(v@.skip(n as int) =~= Seq::<char>::empty());
    assert(out@ + Seq::<char>::empty() =~= out@);
    out
}

} // verus!
