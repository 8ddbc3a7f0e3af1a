//! Character-level text utilities: whitespace classification, trimming,
//! line splitting, and the whitespace-minification pass used before
//! compression.
use vstd::prelude::*;

verus! {

use vstd::string::StrSliceExecFns;

/// The length in bytes of a text's UTF-8 encoding; `str::len` returns it.
pub open spec fn utf8_len(s: Seq<char>) -> nat {
    vstd::utf8::encode_utf8(s).len()
}

/// Relies on `str::len`: the length in bytes of the slice's UTF-8 content,
/// which for any slice held in memory fits in `usize`.
#[verifier::external_body]
pub fn str_byte_len(s: &str) -> (r: usize)
    ensures
        r == utf8_len(s@),
{
    s.len()
}

/// A character with the Unicode `White_Space` property, the set that
/// `char::is_whitespace` recognises.
pub open spec fn is_space(c: char) -> bool {
    let u = c as u32;
    u == 0x20 || (0x9 <= u && u <= 0xd) || u == 0x85 || u == 0xa0 || u == 0x1680 || (0x2000 <= u
        && u <= 0x200a) || u == 0x2028 || u == 0x2029 || u == 0x202f || u == 0x205f || u == 0x3000
}

/// Executable test for [`is_space`].
pub fn is_space_char(c: char) -> (r: bool)
    ensures
        r == is_space(c),
{
    let u = c as u32;
    u == 0x20 || (0x9 <= u && u <= 0xd) || u == 0x85 || u == 0xa0 || u == 0x1680 || (0x2000 <= u
        && u <= 0x200a) || u == 0x2028 || u == 0x2029 || u == 0x202f || u == 0x205f || u == 0x3000
}

/// The sequence with the leading run of whitespace removed.
pub open spec fn trim_start_spec(s: Seq<char>) -> Seq<char>
    decreases s.len(),
{
    if s.len() > 0 && is_space(s[0]) {
        trim_start_spec(s.drop_first())
    } else {
        s
    }
}

/// The sequence with the trailing run of whitespace removed.
pub open spec fn trim_end_spec(s: Seq<char>) -> Seq<char>
    decreases s.len(),
{
    if s.len() > 0 && is_space(s.last()) {
        trim_end_spec(s.drop_last())
    } else {
        s
    }
}

/// The sequence with whitespace removed from both ends, as `str::trim` does.
pub open spec fn trim_spec(s: Seq<char>) -> Seq<char> {
    trim_end_spec(trim_start_spec(s))
}

proof fn lemma_trim_start_prefix(s: Seq<char>, n: int)
    requires
        0 <= n <= s.len(),
        forall|k: int| 0 <= k < n ==> is_space(s[k]),
        n == s.len() || !is_space(s[n]),
    ensures
        trim_start_spec(s) == s.subrange(n, s.len() as int),
    decreases n,
{
    if n == 0 {
        assert(s.subrange(0, s.len() as int) =~= s);
    } else {
        lemma_trim_start_prefix(s.drop_first(), n - 1);
        assert(s.drop_first().subrange(n - 1, s.drop_first().len() as int) =~= s.subrange(
            n,
            s.len() as int,
        ));
    }
}

proof fn lemma_trim_end_suffix(s: Seq<char>, n: int)
    requires
        0 <= n <= s.len(),
        forall|k: int| n <= k < s.len() ==> is_space(s[k]),
        n == 0 || !is_space(s[n - 1]),
    ensures
        trim_end_spec(s) == s.subrange(0, n),
    decreases s.len() - n,
{
    if n == s.len() {
        assert(s.subrange(0, s.len() as int) =~= s);
    } else {
        assert(is_space(s.last()));
        lemma_trim_end_suffix(s.drop_last(), n);
        assert(s.drop_last().subrange(0, n) =~= s.subrange(0, n));
    }
}

/// Copies the characters of a string slice into a vector, one entry per char.
pub fn str_chars(s: &str) -> (r: Vec<char>)
    ensures
        r@ == s@,
{
    let n = s.unicode_len();
    let mut r: Vec<char> = Vec::new();
    let mut i: usize = 0;
    while i < n
        invariant
            i <= n,
            n == s@.len(),
            r@ == s@.take(i as int),
        decreases n - i,
    {
        r.push(s.get_char(i));
        assert(r@ =~= s@.take(i + 1));
        i = i + 1;
    }
    assert(s@.take(n as int) =~= s@);
    r
}

/// Relies on `String::push`: appends the given character to the end of the
/// string.
#[verifier::external_body]
fn push_char(s: &mut String, c: char)
    ensures
        final(s)@ == old(s)@.push(c),
{
    s.push(c)
}

/// Builds a string out of a vector of characters.
pub fn chars_string(v: &Vec<char>) -> (r: String)
    ensures
        r@ == v@,
{
    let mut r = String::new();
    let mut i: usize = 0;
    while i < v.len()
        invariant
            i <= v.len(),
            r@ == v@.take(i as int),
        decreases v.len() - i,
    {
        push_char(&mut r, v[i]);
        assert(r@ =~= v@.take(i + 1));
        i = i + 1;
    }
    assert(v@.take(v.len() as int) =~= v@);
    r
}

/// Trims whitespace from both ends of a character vector.
pub fn trim_chars(v: &Vec<char>) -> (r: Vec<char>)
    ensures
        r@ == trim_spec(v@),
{
    let n = v.len();
    let mut lo: usize = 0;
    while lo < n && is_space_char(v[lo])
        invariant
            lo <= n,
            n == v@.len(),
            forall|k: int| 0 <= k < lo ==> is_space(v@[k]),
        decreases n - lo,
    {
        lo = lo + 1;
    }
    let mut hi: usize = n;
    while hi > lo && is_space_char(v[hi - 1])
        invariant
            lo <= hi <= n,
            n == v@.len(),
            forall|k: int| 0 <= k < lo ==> is_space(v@[k]),
            forall|k: int| hi <= k < n ==> is_space(v@[k]),
        decreases hi,
    {
        hi = hi - 1;
    }
    let mut r: Vec<char> = Vec::new();
    let mut i: usize = lo;
    while i < hi
        invariant
            lo <= i <= hi <= n,
            n == v@.len(),
            r@ == v@.subrange(lo as int, i as int),
        decreases hi - i,
    {
        r.push(v[i]);
        assert(r@ =~= v@.subrange(lo as int, i + 1));
        i = i + 1;
    }
    proof {
        lemma_trim_start_prefix(v@, lo as int);
        let t = v@.subrange(lo as int, n as int);
        lemma_trim_end_suffix(t, hi - lo);
        assert(t.subrange(0, hi - lo) =~= v@.subrange(lo as int, hi as int));
        assert(forall|k: int| hi - lo <= k < t.len() ==> is_space(t[k]));
    }
    r
}

/// The lines of a text: maximal runs of characters between newline
/// separators. A text with no newline is a single line; every newline ends
/// the line before it and opens a new one.
pub open spec fn split_lines(s: Seq<char>) -> Seq<Seq<char>>
    decreases s.len(),
{
    if s.len() == 0 {
        seq![Seq::<char>::empty()]
    } else if s.last() == '\n' {
        split_lines(s.drop_last()).push(Seq::<char>::empty())
    } else {
        let r = split_lines(s.drop_last());
        r.update(r.len() - 1, r.last().push(s.last()))
    }
}

proof fn lemma_split_lines_len(s: Seq<char>)
    ensures
        split_lines(s).len() >= 1,
    decreases s.len(),
{
    if s.len() > 0 {
        lemma_split_lines_len(s.drop_last());
    }
}

/// The lines joined back together with a single newline between them.
pub open spec fn join_lines(ls: Seq<Seq<char>>) -> Seq<char>
    decreases ls.len(),
{
    if ls.len() == 0 {
        Seq::<char>::empty()
    } else if ls.len() == 1 {
        ls[0]
    } else {
        join_lines(ls.drop_last()) + seq!['\n'] + ls.last()
    }
}

/// Each line trimmed, with the lines that became empty dropped.
pub open spec fn nonblank_trimmed(ls: Seq<Seq<char>>) -> Seq<Seq<char>>
    decreases ls.len(),
{
    if ls.len() == 0 {
        Seq::<Seq<char>>::empty()
    } else {
        let rest = nonblank_trimmed(ls.drop_last());
        let t = trim_spec(ls.last());
        if t.len() > 0 {
            rest.push(t)
        } else {
            rest
        }
    }
}

/// The whitespace-minified form of a text: every line trimmed, blank lines
/// dropped, and the rest rejoined with single newlines.
pub open spec fn clean_spec(s: Seq<char>) -> Seq<char> {
    join_lines(nonblank_trimmed(split_lines(s)))
}

/// The views of a sequence of character vectors.
pub open spec fn views_of(ls: Seq<Vec<char>>) -> Seq<Seq<char>> {
    ls.map_values(|x: Vec<char>| x@)
}

/// Splits a character vector into its lines.
fn split_lines_vec(v: &Vec<char>) -> (r: Vec<Vec<char>>)
    ensures
        views_of(r@) == split_lines(v@),
{
    let mut done: Vec<Vec<char>> = Vec::new();
    let mut cur: Vec<char> = Vec::new();
    let mut i: usize = 0;
    while i < v.len()
        invariant
            i <= v.len(),
            views_of(done@).push(cur@) == split_lines(v@.take(i as int)),
        decreases v.len() - i,
    {
        proof {
            assert(v@.take(i + 1).drop_last() =~= v@.take(i as int));
            lemma_split_lines_len(v@.take(i as int));
        }
        let c = v[i];
        if c == '\n' {
            done.push(cur);
            cur = Vec::new();
            assert(views_of(done@).push(cur@) =~= split_lines(v@.take(i + 1)));
        } else {
            cur.push(c);
            assert(views_of(done@).push(cur@) =~= split_lines(v@.take(i + 1)));
        }
        i = i + 1;
    }
    assert(v@.take(v.len() as int) =~= v@);
    done.push(cur);
    assert(views_of(done@) =~= split_lines(v@));
    done
}

/// Minifies the whitespace of a text: splits it into lines, trims leading
/// and trailing whitespace from each line, drops the lines that became
/// empty, and rejoins the rest with single newlines.
pub fn remove_excess_whitespace(xml: &str) -> (r: String)
    ensures
        r@ == clean_spec(xml@),
{
    let v = str_chars(xml);
    let lines = split_lines_vec(&v);
    let mut out: Vec<char> = Vec::new();
    let mut j: usize = 0;
    while j < lines.len()
        invariant
            j <= lines.len(),
            views_of(lines@) == split_lines(v@),
            out@ == join_lines(nonblank_trimmed(views_of(lines@.take(j as int)))),
            out@.len() == 0 <==> nonblank_trimmed(views_of(lines@.take(j as int))).len() == 0,
        decreases lines.len() - j,
    {
        let ghost pre = views_of(lines@.take(j as int));
        let ghost pre_nb = nonblank_trimmed(pre);
        let ghost next_nb = nonblank_trimmed(views_of(lines@.take(j + 1)));
        proof {
            assert(views_of(lines@.take(j + 1)).drop_last() =~= pre);
            assert(views_of(lines@.take(j + 1)).last() == lines@[j as int]@);
        }
        let mut t = trim_chars(&lines[j]);
        let ghost tv = t@;
        if t.len() > 0 {
            proof {
                assert(next_nb =~= pre_nb.push(tv));
            }
            if out.len() > 0 {
                out.push('\n');
                out.append(&mut t);
                proof {
                    assert(pre_nb.len() > 0);
                    assert(next_nb.drop_last() =~= pre_nb);
                    assert(next_nb.last() == tv);
                    assert(join_lines(next_nb) == join_lines(pre_nb) + seq!['\n'] + tv);
                    assert(out@ =~= join_lines(next_nb));
                }
            } else {
                out.append(&mut t);
                proof {
                    assert(pre_nb.len() == 0);
                    assert(next_nb.len() == 1);
                    assert(join_lines(next_nb) == next_nb[0]);
                    assert(out@ =~= join_lines(next_nb));
                }
            }
        } else {
            proof {
                assert(next_nb =~= pre_nb);
            }
        }
        assert(out@ == join_lines(next_nb));
        j = j + 1;
    }
    assert(lines@.take(lines@.len() as int) =~= lines@);
    chars_string(&out)
}

} // verus!
