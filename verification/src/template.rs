use vstd::prelude::*;
use vstd::hash_map::StringHashMap;
use vstd::string::{StrSliceExecFns, StringExecFns};
use vstd::utf8::encode_utf8;

verus! {

broadcast use vstd::string::group_string_axioms;

/// Unicode's White_Space characters, which `str::trim` removes.
pub open spec fn is_white_space(c: char) -> bool {
    ||| ('\u{09}' <= c && c <= '\u{0D}')
    ||| c == ' '
    ||| c == '\u{85}'
    ||| c == '\u{A0}'
    ||| c == '\u{1680}'
    ||| ('\u{2000}' <= c && c <= '\u{200A}')
    ||| c == '\u{2028}'
    ||| c == '\u{2029}'
    ||| c == '\u{202F}'
    ||| c == '\u{205F}'
    ||| c == '\u{3000}'
}

/// The text without its leading white space.
pub open spec fn trim_start(s: Seq<char>) -> Seq<char>
    decreases s.len(),
{
    if s.len() > 0 && is_white_space(s[0]) {
        trim_start(s.drop_first())
    } else {
        s
    }
}

/// The text without its trailing white space.
pub open spec fn trim_end(s: Seq<char>) -> Seq<char>
    decreases s.len(),
{
    if s.len() > 0 && is_white_space(s.last()) {
        trim_end(s.drop_last())
    } else {
        s
    }
}

/// The text without leading and trailing white space.
pub open spec fn trim(s: Seq<char>) -> Seq<char> {
    trim_end(trim_start(s))
}

/// The text with every occurrence of `pat` taken out, scanning from the left and never
/// letting two occurrences overlap.
pub open spec fn remove_all(s: Seq<char>, pat: Seq<char>) -> Seq<char>
    decreases s.len(),
{
    if s.len() == 0 {
        s
    } else if 0 < pat.len() <= s.len() && s.take(pat.len() as int) == pat {
        remove_all(s.skip(pat.len() as int), pat)
    } else {
        seq![s[0]] + remove_all(s.drop_first(), pat)
    }
}

/// `s` begins with `p`.
pub open spec fn starts_with(s: Seq<char>, p: Seq<char>) -> bool {
    p.len() <= s.len() && s.take(p.len() as int) == p
}

/// `s` ends with `p`.
pub open spec fn ends_with(s: Seq<char>, p: Seq<char>) -> bool {
    p.len() <= s.len() && s.skip(s.len() - p.len()) == p
}

/// The start of an HTML comment.
pub open spec fn open_marker() -> Seq<char> {
    seq!['<', '!', '-', '-']
}

/// The end of an HTML comment.
pub open spec fn close_marker() -> Seq<char> {
    seq!['-', '-', '>']
}

/// A trimmed line that is one HTML comment names a value to insert.
pub open spec fn is_marker_line(t: Seq<char>) -> bool {
    starts_with(t, open_marker()) && ends_with(t, close_marker())
}

/// The name in a marker line: the line without comment starts and ends, trimmed.
pub open spec fn marker_key(t: Seq<char>) -> Seq<char> {
    trim(remove_all(remove_all(t, open_marker()), close_marker()))
}

/// The values to insert into a page, each under its name.
pub struct Insertions {
    values: StringHashMap<String>,
}

impl View for Insertions {
    type V = Map<Seq<char>, String>;

    closed spec fn view(&self) -> Map<Seq<char>, String> {
        self.values@
    }
}

impl Insertions {
    /// No values.
    pub fn new() -> (r: Insertions)
        ensures
            r@ == Map::<Seq<char>, String>::empty(),
    {
        Insertions { values: StringHashMap::new() }
    }

    /// Puts `value` under `name`, in place of any value there.
    pub fn insert(&mut self, name: String, value: String)
        ensures
            final(self)@ == old(self)@.insert(name@, value),
    {
        self.values.insert(name, value);
    }

    /// The value under `name`, if any.
    pub fn get(&self, name: &str) -> (r: Option<&String>)
        ensures
            match r {
                Some(v) => self@.contains_key(name@) && *v == self@[name@],
                None => !self@.contains_key(name@),
            },
    {
        self.values.get(name)
    }
}

/// A line as it is sent: a marker line becomes the value inserted under its name (nothing
/// when there is none); any other line stays as it is.
pub open spec fn render_line(line: Seq<char>, insertions: Map<Seq<char>, String>) -> Seq<char> {
    let t = trim(line);
    if is_marker_line(t) {
        let key = marker_key(t);
        if insertions.contains_key(key) {
            insertions[key]@
        } else {
            Seq::empty()
        }
    } else {
        line
    }
}

/// The number of characters before the first line feed (all of them when there is none).
pub open spec fn line_len(s: Seq<char>) -> nat
    decreases s.len(),
{
    if s.len() == 0 || s[0] == '\n' {
        0
    } else {
        1 + line_len(s.drop_first())
    }
}

/// A line without the carriage return that ends it, if one does.
pub open spec fn without_cr(line: Seq<char>) -> Seq<char> {
    if line.len() > 0 && line.last() == '\r' {
        line.drop_last()
    } else {
        line
    }
}

/// A page with its markers replaced: each line (split at line feeds, a carriage return
/// before the line feed dropped, no empty line after a final line feed) rendered and
/// followed by a line feed.
pub open spec fn render_text(s: Seq<char>, insertions: Map<Seq<char>, String>) -> Seq<char>
    decreases s.len(),
{
    if s.len() == 0 {
        Seq::empty()
    } else {
        let k = line_len(s);
        if k < s.len() {
            render_line(without_cr(s.take(k as int)), insertions) + seq!['\n'] + render_text(
                s.skip((k + 1) as int),
                insertions,
            )
        } else {
            render_line(s, insertions) + seq!['\n']
        }
    }
}

/// Appends a character to a string.
///
/// Calls `String::push`, which std documents as appending the character to the end of
/// the string; that is all that is claimed.
#[verifier::external_body]
pub(crate) fn push_char(s: &mut String, c: char)
    ensures
        final(s)@ == old(s)@.push(c),
{
    s.push(c);
}

/// The characters of a text, one by one.
pub fn chars_of(s: &str) -> (v: Vec<char>)
    ensures
        v@ == s@,
{
    let mut v: Vec<char> = Vec::new();
    for c in it: s.chars()
        invariant
            v@ == it.seq().take(it.index()),
    {
        v.push(c);
    }
    assert(v@ =~= s@);
    v
}

/// Whether a character is Unicode white space.
pub fn white_space(c: char) -> (r: bool)
    ensures
        r == is_white_space(c),
{
    let u = c as u32;
    (0x09 <= u && u <= 0x0D) || u == 0x20 || u == 0x85 || u == 0xA0 || u == 0x1680 || (0x2000 <= u
        && u <= 0x200A) || u == 0x2028 || u == 0x2029 || u == 0x202F || u == 0x205F || u == 0x3000
}

proof fn lemma_trim_start(v: Seq<char>, lo: int, a: int, hi: int)
    requires
        0 <= lo <= a <= hi <= v.len(),
        forall|t: int| lo <= t < a ==> is_white_space(#[trigger] v[t]),
        a == hi || !is_white_space(v[a]),
    ensures
        trim_start(v.subrange(lo, hi)) == v.subrange(a, hi),
    decreases a - lo,
{
    if lo < a {
        assert(v.subrange(lo, hi).drop_first() =~= v.subrange(lo + 1, hi));
        lemma_trim_start(v, lo + 1, a, hi);
    }
}

proof fn lemma_trim_end(v: Seq<char>, a: int, b: int, hi: int)
    requires
        0 <= a <= b <= hi <= v.len(),
        forall|t: int| b <= t < hi ==> is_white_space(#[trigger] v[t]),
        b == a || !is_white_space(v[b - 1]),
    ensures
        trim_end(v.subrange(a, hi)) == v.subrange(a, b),
    decreases hi - b,
{
    if b < hi {
        assert(v.subrange(a, hi).drop_last() =~= v.subrange(a, hi - 1));
        lemma_trim_end(v, a, b, hi - 1);
    }
}

/// The bounds of `v[lo..hi]` trimmed.
fn trim_bounds(v: &Vec<char>, lo: usize, hi: usize) -> (r: (usize, usize))
    requires
        lo <= hi <= v.len(),
    ensures
        lo <= r.0 <= r.1 <= hi,
        v@.subrange(r.0 as int, r.1 as int) == trim(v@.subrange(lo as int, hi as int)),
{
    let mut a = lo;
    while a < hi && white_space(v[a])
        invariant
            lo <= a <= hi <= v.len(),
            forall|t: int| lo <= t < a ==> is_white_space(#[trigger] v@[t]),
        decreases hi - a,
    {
        a = a + 1;
    }
    let mut b = hi;
    while b > a && white_space(v[b - 1])
        invariant
            lo <= a <= b <= hi <= v.len(),
            forall|t: int| b <= t < hi ==> is_white_space(#[trigger] v@[t]),
        decreases b - a,
    {
        b = b - 1;
    }
    proof {
        lemma_trim_start(v@, lo as int, a as int, hi as int);
        lemma_trim_end(v@, a as int, b as int, hi as int);
    }
    (a, b)
}

/// Whether `pat` occurs in `s` at position `i`.
fn matches_at(s: &Vec<char>, i: usize, pat: &Vec<char>) -> (r: bool)
    requires
        i <= s.len(),
    ensures
        r == (i + pat.len() <= s.len() && s@.subrange(i as int, i + pat.len()) == pat@),
{
    if pat.len() > s.len() - i {
        return false;
    }
    let mut k: usize = 0;
    while k < pat.len()
        invariant
            i + pat.len() <= s.len(),
            k <= pat.len(),
            forall|t: int| 0 <= t < k ==> s@[i + t] == #[trigger] pat@[t],
        decreases pat.len() - k,
    {
        if s[i + k] != pat[k] {
            assert(s@.subrange(i as int, i + pat.len())[k as int] != pat@[k as int]);
            return false;
        }
        k = k + 1;
    }
    assert(s@.subrange(i as int, i + pat.len()) =~= pat@);
    true
}

/// `s` with every occurrence of `pat` taken out.
fn remove_all_of(s: &Vec<char>, pat: &Vec<char>) -> (r: Vec<char>)
    requires
        pat.len() > 0,
    ensures
        r@ == remove_all(s@, pat@),
{
    let n = s.len();
    let mut out: Vec<char> = Vec::new();
    let mut i: usize = 0;
    assert(s@.skip(0) =~= s@);
    while i < n
        invariant
            n == s.len(),
            pat.len() > 0,
            i <= n,
            out@ + remove_all(s@.skip(i as int), pat@) == remove_all(s@, pat@),
        decreases n - i,
    {
        let ghost rest = s@.skip(i as int);
        if matches_at(s, i, pat) {
            assert(rest.take(pat.len() as int) =~= s@.subrange(i as int, i + pat.len()));
            assert(rest.skip(pat.len() as int) =~= s@.skip(i + pat.len()));
            i = i + pat.len();
        } else {
            assert(rest.take(pat.len() as int) =~= s@.subrange(i as int, i + pat.len())
                || pat.len() > rest.len());
            assert(rest.drop_first() =~= s@.skip(i + 1));
            assert(out@.push(s@[i as int]) + remove_all(s@.skip(i + 1), pat@) =~= out@ + (seq![
                s@[i as int],
            ] + remove_all(s@.skip(i + 1), pat@)));
            out.push(s[i]);
            i = i + 1;
        }
    }
    assert(s@.skip(n as int) =~= Seq::<char>::empty());
    assert(out@ + Seq::<char>::empty() =~= out@);
    out
}

/// The characters `v[lo..hi]` as a vector.
fn sub_chars(v: &Vec<char>, lo: usize, hi: usize) -> (r: Vec<char>)
    requires
        lo <= hi <= v.len(),
    ensures
        r@ == v@.subrange(lo as int, hi as int),
{
    let mut r: Vec<char> = Vec::new();
    let mut k = lo;
    while k < hi
        invariant
            lo <= k <= hi <= v.len(),
            r@ == v@.subrange(lo as int, k as int),
        decreases hi - k,
    {
        r.push(v[k]);
        k = k + 1;
        assert(r@ =~= v@.subrange(lo as int, k as int));
    }
    r
}

/// Appends the characters `v[lo..hi]` to `out`.
pub(crate) fn append_chars(out: &mut String, v: &Vec<char>, lo: usize, hi: usize)
    requires
        lo <= hi <= v.len(),
    ensures
        final(out)@ == old(out)@ + v@.subrange(lo as int, hi as int),
{
    let mut k = lo;
    while k < hi
        invariant
            lo <= k <= hi <= v.len(),
            out@ == old(out)@ + v@.subrange(lo as int, k as int),
        decreases hi - k,
    {
        push_char(out, v[k]);
        k = k + 1;
        assert(out@ =~= old(out)@ + v@.subrange(lo as int, k as int));
    }
}

/// Appends the line `v[lo..hi]` as it is sent.
fn append_rendered_line(
    out: &mut String,
    v: &Vec<char>,
    lo: usize,
    hi: usize,
    insertions: &Insertions,
)
    requires
        lo <= hi <= v.len(),
    ensures
        final(out)@ == old(out)@ + render_line(v@.subrange(lo as int, hi as int), insertions@),
{
    let ghost line = v@.subrange(lo as int, hi as int);
    let (a, b) = trim_bounds(v, lo, hi);
    let ghost t = v@.subrange(a as int, b as int);
    let open_vec: Vec<char> = vec!['<', '!', '-', '-'];
    let close_vec: Vec<char> = vec!['-', '-', '>'];
    assert(open_vec@ =~= open_marker());
    assert(close_vec@ =~= close_marker());
    let starts = b - a >= 4 && matches_at(v, a, &open_vec);
    let ends = b - a >= 3 && matches_at(v, b - 3, &close_vec);
    assert(starts == starts_with(t, open_marker())) by {
        if b - a >= 4 {
            assert(t.take(4) =~= v@.subrange(a as int, a + 4));
        }
    }
    assert(ends == ends_with(t, close_marker())) by {
        if b - a >= 3 {
            assert(t.skip(t.len() - 3) =~= v@.subrange(b - 3, b as int));
        }
    }
    if starts && ends {
        let trimmed = sub_chars(v, a, b);
        let without_open = remove_all_of(&trimmed, &open_vec);
        let without_close = remove_all_of(&without_open, &close_vec);
        let (ka, kb) = trim_bounds(&without_close, 0, without_close.len());
        assert(without_close@.subrange(0, without_close.len() as int) =~= without_close@);
        let mut key = String::new();
        append_chars(&mut key, &without_close, ka, kb);
        assert(key@ =~= marker_key(t));
        match insertions.get(key.as_str()) {
            Some(value) => {
                out.append(value.as_str());
            },
            None => {
                assert(old(out)@ + Seq::<char>::empty() =~= old(out)@);
            },
        }
    } else {
        append_chars(out, v, lo, hi);
    }
}

proof fn lemma_line_len(v: Seq<char>, i: int, j: int)
    requires
        0 <= i <= j <= v.len(),
        forall|t: int| i <= t < j ==> #[trigger] v[t] != '\n',
        j == v.len() || v[j] == '\n',
    ensures
        line_len(v.skip(i)) == j - i,
    decreases j - i,
{
    if i < j {
        assert(v.skip(i).drop_first() =~= v.skip(i + 1));
        lemma_line_len(v, i + 1, j);
    }
}

/// The page `content` as it is sent: every line that, trimmed, is one HTML comment is
/// replaced by the value inserted under the comment's trimmed text (nothing when none
/// is), and every line ends with a line feed; the result is UTF-8.
pub fn insert_on_html(content: &str, insertions: &Insertions) -> (r: Vec<u8>)
    ensures
        r@ == encode_utf8(render_text(content@, insertions@)),
{
    let v = chars_of(content);
    let n = v.len();
    let mut out = String::new();
    let mut i: usize = 0;
    assert(v@.skip(0) =~= v@);
    while i < n
        invariant
            v@ == content@,
            n == v.len(),
            i <= n,
            out@ + render_text(v@.skip(i as int), insertions@) == render_text(v@, insertions@),
        decreases n - i,
    {
        let mut j = i;
        while j < n && v[j] != '\n'
            invariant
                n == v.len(),
                i <= j <= n,
                forall|t: int| i <= t < j ==> #[trigger] v@[t] != '\n',
            decreases n - j,
        {
            j = j + 1;
        }
        proof {
            lemma_line_len(v@, i as int, j as int);
        }
        let line_end = if j < n && j > i && v[j - 1] == '\r' {
            j - 1
        } else {
            j
        };
        let ghost before = out@;
        append_rendered_line(&mut out, &v, i, line_end, insertions);
        push_char(&mut out, '\n');
        let ghost rest = v@.skip(i as int);
        proof {
            if j < n {
                assert(rest.take(j - i) =~= v@.subrange(i as int, j as int));
                assert(without_cr(rest.take(j - i)) =~= v@.subrange(i as int, line_end as int));
                assert(rest.skip(j - i + 1) =~= v@.skip(j + 1));
            } else {
                assert(rest =~= v@.subrange(i as int, n as int));
                assert(v@.skip(n as int) =~= Seq::<char>::empty());
            }
        }
        i = if j < n {
            j + 1
        } else {
            n
        };
        proof {
            assert(out@ + render_text(v@.skip(i as int), insertions@) =~= before + render_text(
                rest,
                insertions@,
            ));
        }
    }
    assert(v@.skip(n as int) =~= Seq::<char>::empty());
    assert(out@ + Seq::<char>::empty() =~= out@);
    out.as_str().as_bytes_vec()
}

} // verus!
