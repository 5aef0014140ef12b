use vstd::prelude::*;
use crate::guard::id_range;
use crate::btree::single_tree_latest_ids;
use crate::btree2::{chunked_latest_defined, chunked_latest_ids};
use crate::groups::{group_of, lemma_group_of_multiple};
use crate::cache::{FileProbe, cache_outcome, reads_file};
use crate::node::NodeView;
use crate::login::{login_errors, byte_len, is_color_char, color_understood};
use crate::guard::{Id, MessageGuard};
use crate::btree::Messages;
use crate::path::{path_key, segment_len, join_components, after_segment};
use crate::template::{
    render_text,
    line_len,
    is_white_space,
    trim,
    trim_start,
    trim_end,
    remove_all,
};
use crate::graphql::{parse_i64_spec, all_digits, digits_value};
use vstd::arithmetic::div_mod::{lemma_fundamental_div_mod, lemma_mod_division_less_than_divisor};

verus! {

/// Inserts never change a stored message: after any number of inserts, the messages stored
/// before them are still there under the same ids, and each insert added one message.
pub proof fn law_inserts_keep_earlier_messages<M>(history: Seq<Seq<M>>, k: int)
    requires
        0 <= k < history.len(),
        forall|i: int|
            0 < i < history.len() ==> (#[trigger] history[i]).drop_last() == history[i - 1]
                && history[i].len() == history[i - 1].len() + 1,
    ensures
        history[k].len() == history[0].len() + k,
        history[k].take(history[0].len() as int) == history[0],
    decreases k,
{
    if k > 0 {
        law_inserts_keep_earlier_messages(history, k - 1);
        let prev = history[k - 1];
        let cur = history[k];
        assert(cur.drop_last() == prev);
        assert(cur.take(history[0].len() as int) =~= prev.take(history[0].len() as int));
    } else {
        assert(history[0].take(history[0].len() as int) =~= history[0]);
    }
}

/// With groups of one id, the grouped store answers `get_latest(n)` for `0 < n <= count`
/// as the single-map store does: the last `n` messages in id order.
pub proof fn law_unit_groups_return_last_n(count: int, n: int)
    requires
        0 < n <= count,
    ensures
        chunked_latest_defined(count, 1, n),
        chunked_latest_ids(count, 1, n) == single_tree_latest_ids(count, n),
        chunked_latest_ids(count, 1, n) == id_range(count - n, count),
{
    lemma_group_of_multiple(count - n, 1);
    lemma_group_of_multiple(count, 1);
    lemma_group_of_multiple(count - n + 1, 1);
    assert(group_of(count - n, 1) == count - n);
    assert(group_of(count, 1) == count);
    assert(((count - n + 1) / 1) * 1 == count - n + 1);
    assert(id_range(count - n, count - n + 1) + id_range(count - n + 1, count) =~= id_range(
        count - n,
        count,
    ));
}

/// Looking a path up twice with the same modification time reads the file at most once:
/// the second lookup answers what the first did and leaves the cache as it was.
pub proof fn law_lookup_is_idempotent(
    cache: Map<Seq<char>, NodeView>,
    path: Seq<char>,
    m: i128,
    fresh: Result<Seq<u8>, Seq<char>>,
    other: Result<Seq<u8>, Seq<char>>,
)
    ensures
        ({
            let (after, answer) = cache_outcome(cache, path, FileProbe::Modified(m), fresh);
            &&& !reads_file(after, path, FileProbe::Modified(m))
            &&& cache_outcome(after, path, FileProbe::Modified(m), other) == (after, answer)
        }),
{
    let (after, answer) = cache_outcome(cache, path, FileProbe::Modified(m), fresh);
    assert(after.contains_key(path));
    assert(after.insert(path, after[path]) =~= after);
}

/// A lookup changes the cached entry of its own path and of no other.
pub proof fn law_lookup_keeps_other_paths(
    cache: Map<Seq<char>, NodeView>,
    path: Seq<char>,
    probe: FileProbe,
    fresh: Result<Seq<u8>, Seq<char>>,
    other_path: Seq<char>,
)
    requires
        other_path != path,
    ensures
        ({
            let after = cache_outcome(cache, path, probe, fresh).0;
            &&& after.contains_key(other_path) == cache.contains_key(other_path)
            &&& cache.contains_key(other_path) ==> after[other_path] == cache[other_path]
        }),
{
}

/// A file that fails to open leaves the entry cached for its path as it was.
pub proof fn law_open_failure_keeps_entry(
    cache: Map<Seq<char>, NodeView>,
    path: Seq<char>,
    error: String,
    fresh: Result<Seq<u8>, Seq<char>>,
)
    requires
        cache.contains_key(path),
    ensures
        cache_outcome(cache, path, FileProbe::OpenFailed(error), fresh).0 == cache,
        cache_outcome(cache, path, FileProbe::OpenFailed(error), fresh).1 == Err::<
            Seq<u8>,
            Seq<char>,
        >(error@),
{
}

/// Disconnecting the session that a connect registered gives back the sessions as they were.
pub proof fn law_disconnect_undoes_connect(
    sessions: Map<usize, Seq<char>>,
    id: usize,
    username: Seq<char>,
)
    requires
        !sessions.contains_key(id),
    ensures
        sessions.insert(id, username).remove(id) == sessions,
{
    assert(sessions.insert(id, username).remove(id) =~= sessions);
}

/// A user whose stored digest is that of the password the form gives, who names itself
/// with a name of 2 to 12 bytes and does not ask to register again, meets no error.
pub proof fn law_right_password_passes(
    username: Seq<char>,
    password0: Seq<char>,
    repassword: Option<Seq<char>>,
    usercolor: Option<Seq<char>>,
    digest: Seq<char>,
)
    requires
        2 <= byte_len(username) <= 12,
        repassword matches Some(r) ==> r.len() == 0,
    ensures
        login_errors(
            Some(username),
            Some(password0),
            repassword,
            usercolor,
            Some(digest),
            Some(digest),
        ) == Seq::<char>::empty(),
{
    assert(Seq::<char>::empty() + Seq::<char>::empty() + Seq::<char>::empty() =~= Seq::<
        char,
    >::empty());
}

/// A node that took a modification time is up to date for that time: it need not be read
/// again until the file is modified later.
pub proof fn law_updated_node_is_current(old_last: i128, m: i128, new_last: i128)
    requires
        new_last == if m > old_last {
            m
        } else {
            old_last
        },
    ensures
        !(m > new_last),
        new_last >= old_last,
{
}

/// The single-map store's `get_latest(n)` gives the newest messages, each once, oldest
/// first: as many as asked (32 when `n <= 0`), or all of them when fewer are stored; the
/// last one given is the newest message.
pub proof fn law_latest_is_the_newest_in_order<T: Clone>(store: Messages<T>, n: Id)
    ensures
        ({
            let count = store.messages().len() as int;
            let wanted: int = if n <= 0 {
                32
            } else {
                n as int
            };
            let given: int = if wanted < count {
                wanted
            } else {
                count
            };
            &&& store.latest_ids(n).len() == given
            &&& forall|i: int| 0 <= i < given ==> store.latest_ids(n)[i] == count - given + i
            &&& wanted >= count ==> forall|i: int| 0 <= i < count ==> store.latest_ids(n)[i] == i
        }),
{
}

/// The characters a color may hold are `#` and the 22 hexadecimal digits, no others.
pub proof fn law_color_chars(c: char)
    ensures
        is_color_char(c) <==> (c == '#' || c == '0' || c == '1' || c == '2' || c == '3' || c == '4'
            || c == '5' || c == '6' || c == '7' || c == '8' || c == '9' || c == 'a' || c == 'b'
            || c == 'c' || c == 'd' || c == 'e' || c == 'f' || c == 'A' || c == 'B' || c == 'C'
            || c == 'D' || c == 'E' || c == 'F'),
{
}

/// A color is understood exactly when it is seven bytes long and each character is `#` or
/// a hexadecimal digit.
pub proof fn law_color_understood(color: Seq<char>)
    ensures
        color_understood(color) <==> (byte_len(color) == 7 && forall|i: int|
            0 <= i < color.len() ==> {
                let c = #[trigger] color[i];
                c == '#' || c == '0' || c == '1' || c == '2' || c == '3' || c == '4' || c == '5'
                    || c == '6' || c == '7' || c == '8' || c == '9' || c == 'a' || c == 'b' || c
                    == 'c' || c == 'd' || c == 'e' || c == 'f' || c == 'A' || c == 'B' || c == 'C'
                    || c == 'D' || c == 'E' || c == 'F'
            }),
{
    assert forall|i: int| 0 <= i < color.len() implies (is_color_char(#[trigger] color[i]) <==> {
        let c = color[i];
        c == '#' || c == '0' || c == '1' || c == '2' || c == '3' || c == '4' || c == '5' || c
            == '6' || c == '7' || c == '8' || c == '9' || c == 'a' || c == 'b' || c == 'c' || c
            == 'd' || c == 'e' || c == 'f' || c == 'A' || c == 'B' || c == 'C' || c == 'D' || c
            == 'E' || c == 'F'
    }) by {
        law_color_chars(color[i]);
    }
}

/// The ten decimal digits, by value.
pub open spec fn decimal_digit(d: int) -> char {
    seq!['0', '1', '2', '3', '4', '5', '6', '7', '8', '9'][d]
}

/// A natural number written in decimal, without leading zeros (`0` for zero).
pub open spec fn decimal_of_nat(n: nat) -> Seq<char>
    decreases n,
{
    if n < 10 {
        seq![decimal_digit(n as int)]
    } else {
        decimal_of_nat(n / 10).push(decimal_digit((n % 10) as int))
    }
}

/// An `i64` written in decimal as `to_string` writes it: a `-` before negative numbers.
pub open spec fn decimal_of(x: i64) -> Seq<char> {
    if x < 0 {
        seq!['-'] + decimal_of_nat((-x) as nat)
    } else {
        decimal_of_nat(x as nat)
    }
}

proof fn lemma_decimal_of_nat(n: nat)
    ensures
        decimal_of_nat(n).len() > 0,
        all_digits(decimal_of_nat(n)),
        digits_value(decimal_of_nat(n)) == n,
        '0' <= decimal_of_nat(n)[0] <= '9',
    decreases n,
{
    if n < 10 {
        let s = decimal_of_nat(n);
        assert(s.drop_last() =~= Seq::<char>::empty());
        assert(digits_value(s.drop_last()) == 0);
    } else {
        lemma_decimal_of_nat(n / 10);
        lemma_fundamental_div_mod(n as int, 10);
        lemma_mod_division_less_than_divisor(n as int, 10);
        let s = decimal_of_nat(n);
        assert(s.drop_last() =~= decimal_of_nat(n / 10));
        assert(s[0] == decimal_of_nat(n / 10)[0]);
        assert forall|i: int| 0 <= i < s.len() implies crate::graphql::is_digit(#[trigger] s[i]) by {
            if i < s.len() - 1 {
                assert(s[i] == decimal_of_nat(n / 10)[i]);
            }
        }
    }
}

/// Reading the decimal writing of any `i64` gives the number back.
pub proof fn law_parse_reads_decimal_back(x: i64)
    ensures
        parse_i64_spec(decimal_of(x)) == Some(x),
{
    if x < 0 {
        let m = (-x) as nat;
        lemma_decimal_of_nat(m);
        let s = decimal_of(x);
        assert(s.drop_first() =~= decimal_of_nat(m));
    } else {
        lemma_decimal_of_nat(x as nat);
    }
}

/// A character that may stand in the name of a value to insert: an ASCII letter or digit
/// or `_`.
pub open spec fn is_name_char(c: char) -> bool {
    ||| ('a' <= c && c <= 'z')
    ||| ('A' <= c && c <= 'Z')
    ||| ('0' <= c && c <= '9')
    ||| c == '_'
}

proof fn lemma_line_len_of_line(l: Seq<char>, rest: Seq<char>)
    requires
        forall|i: int| 0 <= i < l.len() ==> #[trigger] l[i] != '\n',
    ensures
        line_len(l + seq!['\n'] + rest) == l.len(),
    decreases l.len(),
{
    let s = l + seq!['\n'] + rest;
    if l.len() > 0 {
        assert(s.drop_first() =~= l.drop_first() + seq!['\n'] + rest);
        lemma_line_len_of_line(l.drop_first(), rest);
    } else {
        assert(s[0] == '\n');
    }
}

/// The lines of a page are rendered one by one: what a line becomes does not depend on
/// the lines after it, and what they become does not depend on it.
pub proof fn law_lines_render_independently(
    line: Seq<char>,
    rest: Seq<char>,
    insertions: Map<Seq<char>, String>,
)
    requires
        forall|i: int| 0 <= i < line.len() ==> #[trigger] line[i] != '\n',
    ensures
        render_text(line + seq!['\n'] + rest, insertions) == render_text(line + seq!['\n'], insertions)
            + render_text(rest, insertions),
{
    let s = line + seq!['\n'] + rest;
    let one = line + seq!['\n'];
    lemma_line_len_of_line(line, rest);
    lemma_line_len_of_line(line, Seq::empty());
    assert(one + Seq::<char>::empty() =~= one);
    assert(s.take(line.len() as int) =~= line);
    assert(one.take(line.len() as int) =~= line);
    assert(s.skip((line.len() + 1) as int) =~= rest);
    assert(one.skip((line.len() + 1) as int) =~= Seq::<char>::empty());
    assert(render_text(Seq::<char>::empty(), insertions) == Seq::<char>::empty());
}

proof fn lemma_remove_absent(s: Seq<char>, pat: Seq<char>)
    requires
        pat.len() > 0,
        forall|i: int| 0 <= i < s.len() ==> #[trigger] s[i] != pat[0],
    ensures
        remove_all(s, pat) == s,
    decreases s.len(),
{
    if s.len() > 0 {
        if pat.len() <= s.len() {
            assert(s.take(pat.len() as int)[0] == s[0]);
        }
        lemma_remove_absent(s.drop_first(), pat);
        assert(seq![s[0]] + s.drop_first() =~= s);
    }
}

proof fn lemma_remove_final(a: Seq<char>, pat: Seq<char>)
    requires
        pat.len() > 0,
        forall|i: int| 0 <= i < a.len() ==> #[trigger] a[i] != pat[0],
    ensures
        remove_all(a + pat, pat) == a,
    decreases a.len(),
{
    let s = a + pat;
    if a.len() == 0 {
        assert(s =~= pat);
        assert(s.take(pat.len() as int) =~= pat);
        assert(s.skip(pat.len() as int) =~= Seq::<char>::empty());
        assert(remove_all(s, pat) == remove_all(Seq::<char>::empty(), pat));
        assert(a =~= Seq::<char>::empty());
    } else {
        assert(s.take(pat.len() as int)[0] == a[0]);
        assert(s.take(pat.len() as int) != pat);
        assert(s.drop_first() =~= a.drop_first() + pat);
        lemma_remove_final(a.drop_first(), pat);
        assert(remove_all(s, pat) == seq![s[0]] + remove_all(s.drop_first(), pat));
        assert(seq![a[0]] + a.drop_first() =~= a);
    }
}

/// A line that is one HTML comment around a name of letters, digits and `_` becomes the
/// value inserted under that name, or an empty line when there is none.
pub proof fn law_marker_line_takes_value(name: Seq<char>, insertions: Map<Seq<char>, String>)
    requires
        forall|i: int| 0 <= i < name.len() ==> is_name_char(#[trigger] name[i]),
    ensures
        render_text(
            seq!['<', '!', '-', '-'] + name + seq!['-', '-', '>'] + seq!['\n'],
            insertions,
        ) == (if insertions.contains_key(name) {
            insertions[name]@
        } else {
            Seq::empty()
        }) + seq!['\n'],
{
    let open = seq!['<', '!', '-', '-'];
    let close = seq!['-', '-', '>'];
    let line = open + name + close;
    assert forall|i: int| 0 <= i < line.len() implies #[trigger] line[i] != '\n' by {
        if 4 <= i < 4 + name.len() {
            assert(line[i] == name[i - 4]);
            assert(is_name_char(name[i - 4]));
        }
    }
    lemma_line_len_of_line(line, Seq::empty());
    let s = line + seq!['\n'];
    assert(s.take(line.len() as int) =~= line);
    assert(s.skip((line.len() + 1) as int) =~= Seq::<char>::empty());
    assert(!is_white_space(line[0]));
    assert(trim_start(line) == line);
    assert(line.last() == '>');
    assert(!is_white_space(line.last()));
    assert(trim_end(line) == line);
    assert(trim(line) == line);
    assert(line.take(4) =~= open);
    assert(line.skip(line.len() - 3) =~= close);
    assert(line.skip(4) =~= name + close);
    assert forall|i: int| 0 <= i < (name + close).len() implies #[trigger] (name + close)[i] != open[0] by {
        if i < name.len() {
            assert(is_name_char(name[i]));
        }
    }
    lemma_remove_absent(name + close, open);
    assert(remove_all(line, open) == name + close);
    assert forall|i: int| 0 <= i < name.len() implies #[trigger] name[i] != close[0] by {
        assert(is_name_char(name[i]));
    }
    lemma_remove_final(name, close);
    if name.len() > 0 {
        assert(is_name_char(name[0]));
        assert(is_name_char(name.last()));
    }
    assert(trim_start(name) == name);
    assert(trim_end(name) == name);
    assert(render_text(Seq::<char>::empty(), insertions) == Seq::<char>::empty());
}

proof fn lemma_trim_start_is_suffix(s: Seq<char>) -> (k: int)
    ensures
        0 <= k <= s.len(),
        trim_start(s) == s.skip(k),
    decreases s.len(),
{
    if s.len() > 0 && is_white_space(s[0]) {
        let j = lemma_trim_start_is_suffix(s.drop_first());
        assert(s.drop_first().skip(j) =~= s.skip(j + 1));
        j + 1
    } else {
        assert(s.skip(0) =~= s);
        0
    }
}

proof fn lemma_trim_end_is_prefix(s: Seq<char>) -> (k: int)
    ensures
        0 <= k <= s.len(),
        trim_end(s) == s.take(k),
    decreases s.len(),
{
    if s.len() > 0 && is_white_space(s.last()) {
        let j = lemma_trim_end_is_prefix(s.drop_last());
        assert(s.drop_last().take(j) =~= s.take(j));
        j
    } else {
        assert(s.take(s.len() as int) =~= s);
        s.len() as int
    }
}

/// A line without `<`, carriage return or line feed is sent as it is.
pub proof fn law_plain_line_is_kept(line: Seq<char>, insertions: Map<Seq<char>, String>)
    requires
        forall|i: int|
            0 <= i < line.len() ==> #[trigger] line[i] != '<' && line[i] != '\r' && line[i] != '\n',
    ensures
        render_text(line + seq!['\n'], insertions) == line + seq!['\n'],
{
    lemma_line_len_of_line(line, Seq::empty());
    let s = line + seq!['\n'];
    assert(s.take(line.len() as int) =~= line);
    assert(s.skip((line.len() + 1) as int) =~= Seq::<char>::empty());
    assert(render_text(Seq::<char>::empty(), insertions) == Seq::<char>::empty());
    let a = lemma_trim_start_is_suffix(line);
    let b = lemma_trim_end_is_prefix(line.skip(a));
    let t = trim(line);
    assert(t == line.skip(a).take(b));
    if t.len() >= 4 {
        assert(t.take(4)[0] == line[a]);
    }
    if line.len() > 0 {
        assert(line.last() != '\r');
    }
}

/// A path begins at the root: its first character is `/`.
pub open spec fn is_absolute_path(s: Seq<char>) -> bool {
    s.len() > 0 && s[0] == '/'
}

/// A relative path that begins with the current directory: it is `.` or begins with `./`.
pub open spec fn has_leading_cur_dir(s: Seq<char>) -> bool {
    !is_absolute_path(s) && (s == seq!['.'] || (s.len() >= 2 && s[0] == '.' && s[1] == '/'))
}

/// The named components of a path, in order: the parts between `/`s other than empty
/// parts and `.`.
pub open spec fn path_components(s: Seq<char>) -> Seq<Seq<char>>
    decreases s.len(),
{
    if s.len() == 0 {
        Seq::empty()
    } else {
        let k = segment_len(s);
        let seg = s.take(k as int);
        let rest = if k < s.len() {
            s.skip((k + 1) as int)
        } else {
            Seq::<char>::empty()
        };
        if seg.len() > 0 && seg != seq!['.'] {
            seq![seg] + path_components(rest)
        } else {
            path_components(rest)
        }
    }
}

/// Components written one after the other with a `/` between two.
pub open spec fn joined(segs: Seq<Seq<char>>) -> Seq<char>
    decreases segs.len(),
{
    if segs.len() == 0 {
        Seq::empty()
    } else if segs.len() == 1 {
        segs[0]
    } else {
        segs[0] + seq!['/'] + joined(segs.drop_first())
    }
}

/// A component as the components of a path are: not empty, not `.`, without `/`.
pub open spec fn is_component(seg: Seq<char>) -> bool {
    &&& seg.len() > 0
    &&& seg != seq!['.']
    &&& forall|i: int| 0 <= i < seg.len() ==> #[trigger] seg[i] != '/'
}

proof fn lemma_segment_len_basic(s: Seq<char>)
    ensures
        segment_len(s) <= s.len(),
        forall|i: int| 0 <= i < segment_len(s) ==> #[trigger] s[i] != '/',
        segment_len(s) < s.len() ==> s[segment_len(s) as int] == '/',
    decreases s.len(),
{
    if s.len() > 0 && s[0] != '/' {
        lemma_segment_len_basic(s.drop_first());
        assert forall|i: int| 0 <= i < segment_len(s) implies #[trigger] s[i] != '/' by {
            if i > 0 {
                assert(s[i] == s.drop_first()[i - 1]);
            }
        }
    }
}

proof fn lemma_segment_len_of(a: Seq<char>, t: Seq<char>)
    requires
        forall|i: int| 0 <= i < a.len() ==> #[trigger] a[i] != '/',
        t.len() == 0 || t[0] == '/',
    ensures
        segment_len(a + t) == a.len(),
    decreases a.len(),
{
    if a.len() > 0 {
        assert((a + t).drop_first() =~= a.drop_first() + t);
        lemma_segment_len_of(a.drop_first(), t);
    } else {
        assert(a + t =~= t);
    }
}

proof fn lemma_components_are_components(s: Seq<char>)
    ensures
        forall|j: int|
            0 <= j < path_components(s).len() ==> is_component(#[trigger] path_components(s)[j]),
    decreases s.len(),
{
    if s.len() > 0 {
        let k = segment_len(s);
        lemma_segment_len_basic(s);
        let rest = if k < s.len() {
            s.skip((k + 1) as int)
        } else {
            Seq::<char>::empty()
        };
        lemma_components_are_components(rest);
        let seg = s.take(k as int);
        assert forall|i: int| 0 <= i < seg.len() implies #[trigger] seg[i] != '/' by {
            assert(seg[i] == s[i]);
        }
        if seg.len() > 0 && seg != seq!['.'] {
            assert(path_components(s) == seq![seg] + path_components(rest));
            assert forall|j: int| 0 <= j < path_components(s).len() implies is_component(
                #[trigger] path_components(s)[j],
            ) by {
                if j > 0 {
                    assert(path_components(s)[j] == path_components(rest)[j - 1]);
                } else {
                    assert(path_components(s)[j] == seg);
                }
            }
        } else {
            assert(path_components(s) == path_components(rest));
        }
    }
}

proof fn lemma_joined_first(segs: Seq<Seq<char>>)
    requires
        segs.len() > 0,
    ensures
        joined(segs) == segs[0] + (if segs.len() > 1 {
            seq!['/'] + joined(segs.drop_first())
        } else {
            Seq::<char>::empty()
        }),
{
    if segs.len() == 1 {
        assert(segs[0] + Seq::<char>::empty() =~= segs[0]);
    } else {
        assert(segs[0] + seq!['/'] + joined(segs.drop_first()) =~= segs[0] + (seq!['/'] + joined(
            segs.drop_first(),
        )));
    }
}

proof fn lemma_components_of_joined(segs: Seq<Seq<char>>)
    requires
        forall|j: int| 0 <= j < segs.len() ==> is_component(#[trigger] segs[j]),
    ensures
        path_components(joined(segs)) == segs,
    decreases segs.len(),
{
    if segs.len() > 0 {
        let seg = segs[0];
        assert(is_component(seg));
        let tail = if segs.len() > 1 {
            seq!['/'] + joined(segs.drop_first())
        } else {
            Seq::<char>::empty()
        };
        lemma_joined_first(segs);
        let s = joined(segs);
        assert(s == seg + tail);
        lemma_segment_len_of(seg, tail);
        assert(s.take(seg.len() as int) =~= seg);
        assert forall|j: int| 0 <= j < segs.drop_first().len() implies is_component(
            #[trigger] segs.drop_first()[j],
        ) by {
            assert(segs.drop_first()[j] == segs[j + 1]);
        }
        lemma_components_of_joined(segs.drop_first());
        if segs.len() > 1 {
            assert(s.skip((seg.len() + 1) as int) =~= joined(segs.drop_first()));
            assert(seq![seg] + segs.drop_first() =~= segs);
        } else {
            assert(s.len() == seg.len());
            assert(segs.drop_first() =~= Seq::<Seq<char>>::empty());
            assert(path_components(Seq::<char>::empty()) =~= Seq::<Seq<char>>::empty());
            assert(seq![seg] =~= segs);
        }
    } else {
        assert(joined(segs) =~= Seq::<char>::empty());
    }
}

proof fn lemma_join_components(s: Seq<char>, started: bool)
    ensures
        join_components(s, started) == (if started && path_components(s).len() > 0 {
            seq!['/']
        } else {
            Seq::<char>::empty()
        }) + joined(path_components(s)),
    decreases s.len(),
{
    if s.len() == 0 {
        assert(Seq::<char>::empty() + Seq::<char>::empty() =~= Seq::<char>::empty());
    } else {
        let k = segment_len(s);
        let seg = s.take(k as int);
        let rest = if k < s.len() {
            s.skip((k + 1) as int)
        } else {
            Seq::<char>::empty()
        };
        if seg.len() == 0 || seg == seq!['.'] {
            lemma_join_components(rest, started);
        } else {
            lemma_join_components(rest, true);
            let pre = if started {
                seq!['/']
            } else {
                Seq::<char>::empty()
            };
            let pr = path_components(rest);
            let segs = seq![seg] + pr;
            assert(path_components(s) == segs);
            lemma_joined_first(segs);
            assert(segs.drop_first() =~= pr);
            assert(segs[0] == seg);
            if pr.len() > 0 {
                assert(pre + seg + (seq!['/'] + joined(pr)) =~= pre + (seg + (seq!['/'] + joined(
                    pr,
                ))));
            } else {
                assert(pre + seg + (Seq::<char>::empty() + joined(pr)) =~= pre + (seg
                    + Seq::<char>::empty()));
            }
        }
    }
}

/// The cache key of a path keeps what std's `Path` compares of it: whether it begins at the
/// root, whether it begins with the current directory, and its named components.
pub proof fn law_path_key_keeps_components(p: Seq<char>)
    ensures
        is_absolute_path(path_key(p)) == is_absolute_path(p),
        has_leading_cur_dir(path_key(p)) == has_leading_cur_dir(p),
        path_components(path_key(p)) == path_components(p),
{
    let key = path_key(p);
    lemma_segment_len_basic(p);
    if p.len() > 0 && p[0] == '/' {
        let r = p.drop_first();
        lemma_join_components(r, false);
        lemma_components_are_components(r);
        lemma_components_of_joined(path_components(r));
        assert(segment_len(p) == 0);
        assert(p.skip(1) =~= r);
        assert(path_components(p) == path_components(r));
        assert(segment_len(key) == 0);
        assert(key.skip(1) =~= joined(path_components(r)));
        assert(path_components(key) == path_components(key.skip(1)));
    } else if p.take(segment_len(p) as int) == seq!['.'] {
        let after = after_segment(p);
        assert(segment_len(p) == 1);
        assert(p.take(1)[0] == p[0]);
        assert(p[0] == '.');
        lemma_join_components(after, true);
        lemma_components_are_components(after);
        lemma_components_of_joined(path_components(after));
        assert(path_components(p) == path_components(after));
        let pa = path_components(after);
        if pa.len() > 0 {
            let tail = seq!['/'] + joined(pa);
            assert(key =~= seq!['.'] + tail);
            lemma_segment_len_of(seq!['.'], tail);
            assert(key.take(1) =~= seq!['.']);
            assert(key.skip(2) =~= joined(pa));
        } else {
            assert(key =~= seq!['.']);
            assert(segment_len(seq!['.']) == 1) by {
                lemma_segment_len_of(seq!['.'], Seq::<char>::empty());
                assert(seq!['.'] + Seq::<char>::empty() =~= seq!['.']);
            }
            assert(key.take(1) =~= seq!['.']);
        }
        if p.len() == 1 {
            assert(p =~= seq!['.']);
        }
    } else {
        lemma_join_components(p, false);
        lemma_components_are_components(p);
        let pc = path_components(p);
        lemma_components_of_joined(pc);
        assert(key == joined(pc));
        if pc.len() > 0 {
            lemma_joined_first(pc);
            let tail = if pc.len() > 1 {
                seq!['/'] + joined(pc.drop_first())
            } else {
                Seq::<char>::empty()
            };
            assert(is_component(pc[0]));
            assert(key[0] == pc[0][0]);
            if key.len() >= 2 && key[0] == '.' && key[1] == '/' {
                if pc[0].len() > 1 {
                    assert(key[1] == pc[0][1]);
                } else {
                    assert(pc[0] =~= seq!['.']);
                }
            }
            if key == seq!['.'] {
                assert(pc[0].len() == 1);
                assert(pc[0] =~= seq!['.']);
            }
        } else {
            assert(key =~= Seq::<char>::empty());
        }
        if p == seq!['.'] {
            lemma_segment_len_of(seq!['.'], Seq::<char>::empty());
            assert(seq!['.'] + Seq::<char>::empty() =~= seq!['.']);
            assert(p.take(1) =~= seq!['.']);
        }
        if p.len() >= 2 && p[0] == '.' && p[1] == '/' {
            lemma_segment_len_of(seq!['.'], p.skip(1));
            assert(seq!['.'] + p.skip(1) =~= p);
            assert(p.take(1) =~= seq!['.']);
        }
    }
}

/// Two paths share a cache key only when std's `Path` holds them for the same path: both or
/// neither begin at the root, both or neither begin with the current directory, and their
/// named components are the same.
pub proof fn law_same_key_same_path(p: Seq<char>, q: Seq<char>)
    requires
        path_key(p) == path_key(q),
    ensures
        is_absolute_path(p) == is_absolute_path(q),
        has_leading_cur_dir(p) == has_leading_cur_dir(q),
        path_components(p) == path_components(q),
{
    law_path_key_keeps_components(p);
    law_path_key_keeps_components(q);
}

} // verus!
