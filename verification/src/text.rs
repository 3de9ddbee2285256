//! Text primitives over character sequences: the line splitting, field
//! splitting and whitespace trimming that the parsers of this crate are
//! built from. Each executable function is tied to a spec function on
//! `Seq<char>` that states the result directly.
use vstd::prelude::*;

verus! {

// ---------------------------------------------------------------------------
// Specifications
// ---------------------------------------------------------------------------

/// Unicode `White_Space`, the set that `char::is_whitespace` tests.
pub open spec fn is_ws(c: char) -> bool {
    ||| ('\t' <= c && c <= '\r')
    ||| c == ' '
    ||| c == '\u{85}'
    ||| c == '\u{a0}'
    ||| c == '\u{1680}'
    ||| ('\u{2000}' <= c && c <= '\u{200a}')
    ||| c == '\u{2028}'
    ||| c == '\u{2029}'
    ||| c == '\u{202f}'
    ||| c == '\u{205f}'
    ||| c == '\u{3000}'
}

/// `s` without its trailing whitespace.
pub open spec fn trim_end(s: Seq<char>) -> Seq<char>
    decreases s.len(),
{
    if s.len() > 0 && is_ws(s.last()) {
        trim_end(s.drop_last())
    } else {
        s
    }
}

/// `s` without its leading whitespace.
pub open spec fn trim_start(s: Seq<char>) -> Seq<char>
    decreases s.len(),
{
    if s.len() > 0 && is_ws(s[0]) {
        trim_start(s.drop_first())
    } else {
        s
    }
}

/// `s` without leading and trailing whitespace.
pub open spec fn trim(s: Seq<char>) -> Seq<char> {
    trim_start(trim_end(s))
}

/// The index of the first `c` in `s`, if any.
pub open spec fn first_index(s: Seq<char>, c: char) -> Option<int>
    decreases s.len(),
{
    if s.len() == 0 {
        None
    } else if s[0] == c {
        Some(0)
    } else {
        match first_index(s.drop_first(), c) {
            Some(i) => Some(i + 1),
            None => None,
        }
    }
}

/// A line with one trailing carriage return removed.
pub open spec fn strip_cr(l: Seq<char>) -> Seq<char> {
    if l.len() > 0 && l.last() == '\r' {
        l.drop_last()
    } else {
        l
    }
}

/// The lines of `s`: split after each `'\n'`, each line without its
/// `"\n"` or `"\r\n"` ending; a final line needs no ending, and nothing
/// follows a final `'\n'`.
pub open spec fn lines(s: Seq<char>) -> Seq<Seq<char>>
    decreases s.len(),
{
    if s.len() == 0 {
        Seq::empty()
    } else {
        proof {
            lemma_first_index(s, '\n');
        }
        match first_index(s, '\n') {
            Some(i) => seq![strip_cr(s.take(i))] + lines(s.skip(i + 1)),
            None => seq![s],
        }
    }
}

/// The pieces of `s` between occurrences of `c` (always at least one).
pub open spec fn split_char(s: Seq<char>, c: char) -> Seq<Seq<char>>
    decreases s.len(),
{
    proof {
        lemma_first_index(s, c);
    }
    match first_index(s, c) {
        Some(i) => seq![s.take(i)] + split_char(s.skip(i + 1), c),
        None => seq![s],
    }
}

/// The index of the first occurrence of the non-empty pattern `p` in `s`.
pub open spec fn find_seq(s: Seq<char>, p: Seq<char>) -> Option<int>
    decreases s.len(),
{
    if s.len() < p.len() || p.len() == 0 {
        None
    } else if s.take(p.len() as int) == p {
        Some(0)
    } else {
        match find_seq(s.drop_first(), p) {
            Some(i) => Some(i + 1),
            None => None,
        }
    }
}

/// The sequences of `ss` that are not empty, in order.
pub open spec fn drop_empty(ss: Seq<Seq<char>>) -> Seq<Seq<char>>
    decreases ss.len(),
{
    if ss.len() == 0 {
        ss
    } else if ss.last().len() == 0 {
        drop_empty(ss.drop_last())
    } else {
        drop_empty(ss.drop_last()).push(ss.last())
    }
}

/// The length of the leading run of non-whitespace characters of `s`.
pub open spec fn word_len(s: Seq<char>) -> nat
    decreases s.len(),
{
    if s.len() == 0 || is_ws(s[0]) {
        0
    } else {
        1 + word_len(s.drop_first())
    }
}

/// The maximal runs of non-whitespace characters of `s`, in order
/// (what `str::split_whitespace` yields).
pub open spec fn words(s: Seq<char>) -> Seq<Seq<char>>
    decreases s.len(),
{
    if s.len() == 0 {
        Seq::empty()
    } else if is_ws(s[0]) {
        words(s.drop_first())
    } else {
        proof {
            lemma_word_len(s);
        }
        seq![s.take(word_len(s) as int)] + words(s.skip(word_len(s) as int))
    }
}

/// The sequences of `ss` joined with `sep` between each two.
pub open spec fn join(ss: Seq<Seq<char>>, sep: Seq<char>) -> Seq<char>
    decreases ss.len(),
{
    if ss.len() == 0 {
        Seq::empty()
    } else if ss.len() == 1 {
        ss[0]
    } else {
        join(ss.drop_last(), sep) + sep + ss.last()
    }
}

/// Each sequence trimmed.
pub open spec fn trim_each(ls: Seq<Seq<char>>) -> Seq<Seq<char>> {
    Seq::new(ls.len(), |i: int| trim(ls[i]))
}

/// The non-blank lines of `s`, trimmed, joined with `sep`: a multi-line
/// text folded onto one line.
pub open spec fn folded(s: Seq<char>, sep: Seq<char>) -> Seq<char> {
    join(drop_empty(trim_each(lines(s))), sep)
}

/// The view of an outcome whose value and error are strings.
pub open spec fn result_view(r: Result<String, String>) -> Result<Seq<char>, Seq<char>> {
    match r {
        Ok(s) => Ok(s@),
        Err(e) => Err(e@),
    }
}

/// The decimal digit for `d` (below ten).
pub open spec fn digit(d: nat) -> char {
    if d == 0 { '0' } else if d == 1 { '1' } else if d == 2 { '2' } else if d == 3 { '3' }
    else if d == 4 { '4' } else if d == 5 { '5' } else if d == 6 { '6' } else if d == 7 { '7' }
    else if d == 8 { '8' } else { '9' }
}

/// `n` written in decimal, without leading zeros.
pub open spec fn decimal(n: nat) -> Seq<char>
    decreases n,
{
    if n < 10 {
        seq![digit(n)]
    } else {
        decimal(n / 10).push(digit(n % 10))
    }
}

/// `s` padded on the left with spaces to `width` characters; a longer
/// `s` is left as it is.
pub open spec fn pad_left(s: Seq<char>, width: nat) -> Seq<char> {
    if s.len() < width {
        Seq::new((width - s.len()) as nat, |i: int| ' ') + s
    } else {
        s
    }
}

/// The view of an optional string.
pub open spec fn opt_string_view(o: Option<String>) -> Option<Seq<char>> {
    match o {
        Some(s) => Some(s@),
        None => None,
    }
}

/// The view of an optional string slice.
pub open spec fn opt_str_view(o: Option<&str>) -> Option<Seq<char>> {
    match o {
        Some(s) => Some(s@),
        None => None,
    }
}

/// The views of a sequence of character vectors.
pub open spec fn views(v: Seq<Vec<char>>) -> Seq<Seq<char>> {
    Seq::new(v.len(), |i: int| v[i]@)
}

/// The views of a sequence of strings.
pub open spec fn strings_view(v: Seq<String>) -> Seq<Seq<char>> {
    Seq::new(v.len(), |i: int| v[i]@)
}

/// Lexicographic order of character sequences by code point: the order
/// of `String`, since UTF-8 keeps the order of code points.
pub open spec fn lex_lt(a: Seq<char>, b: Seq<char>) -> bool
    decreases a.len(),
{
    if a.len() == 0 {
        b.len() > 0
    } else if b.len() == 0 {
        false
    } else if a[0] != b[0] {
        a[0] < b[0]
    } else {
        lex_lt(a.drop_first(), b.drop_first())
    }
}

/// Each element is lexicographically less than every later one: sorted,
/// with nothing twice.
pub open spec fn strictly_sorted(s: Seq<Seq<char>>) -> bool {
    forall|i: int, j: int| 0 <= i < j < s.len() ==> lex_lt(#[trigger] s[i], #[trigger] s[j])
}

// ---------------------------------------------------------------------------
// Lemmas
// ---------------------------------------------------------------------------

/// A word is a non-empty prefix when `s` starts with a non-whitespace
/// character, and every character in it is not whitespace.
pub proof fn lemma_word_len(s: Seq<char>)
    ensures
        word_len(s) <= s.len(),
        s.len() > 0 && !is_ws(s[0]) ==> word_len(s) >= 1,
        forall|j: int| 0 <= j < word_len(s) ==> !is_ws(s[j]),
        word_len(s) < s.len() ==> is_ws(s[word_len(s) as int]),
    decreases s.len(),
{
    if s.len() > 0 && !is_ws(s[0]) {
        lemma_word_len(s.drop_first());
        assert forall|j: int| 0 < j < word_len(s) implies !is_ws(s[j]) by {
            assert(s[j] == s.drop_first()[j - 1]);
        }
    }
}

/// The word length is determined by a scan to the first whitespace.
pub proof fn lemma_word_len_at(s: Seq<char>, k: int)
    requires
        0 <= k <= s.len(),
        forall|j: int| 0 <= j < k ==> !is_ws(#[trigger] s[j]),
        k < s.len() ==> is_ws(s[k]),
    ensures
        word_len(s) == k,
    decreases s.len(),
{
    if k > 0 {
        assert forall|j: int| 0 <= j < k - 1 implies !is_ws(#[trigger] s.drop_first()[j]) by {
            assert(s.drop_first()[j] == s[j + 1]);
        }
        lemma_word_len_at(s.drop_first(), k - 1);
    }
}

/// `first_index` finds the first occurrence, and `None` means there is none.
pub proof fn lemma_first_index(s: Seq<char>, c: char)
    ensures
        first_index(s, c) matches Some(i) ==> 0 <= i < s.len() && s[i] == c && forall|j: int|
            0 <= j < i ==> s[j] != c,
        first_index(s, c) is None ==> forall|j: int| 0 <= j < s.len() ==> s[j] != c,
    decreases s.len(),
{
    if s.len() > 0 && s[0] != c {
        lemma_first_index(s.drop_first(), c);
        assert forall|j: int| 0 < j < s.len() implies s[j] == s.drop_first()[j - 1] by {}
    }
}

/// The index of the first `c` is determined by a scan.
pub proof fn lemma_first_index_at(s: Seq<char>, c: char, i: int)
    requires
        0 <= i <= s.len(),
        forall|j: int| 0 <= j < i ==> s[j] != c,
        i < s.len() ==> s[i] == c,
    ensures
        first_index(s, c) == (if i < s.len() {
            Some(i)
        } else {
            None::<int>
        }),
{
    lemma_first_index(s, c);
    match first_index(s, c) {
        Some(k) => {
            if k < i {
                assert(s[k] != c);
            }
            if i < k {
                assert(s[i] == c);
            }
        },
        None => {
            if i < s.len() {
                assert(s[i] == c);
            }
        },
    }
}

/// Removing trailing whitespace: a scan from the end finds where it stops.
pub proof fn lemma_trim_end_step(s: Seq<char>, hi: int)
    requires
        0 < hi <= s.len(),
        is_ws(s[hi - 1]),
    ensures
        trim_end(s.take(hi)) == trim_end(s.take(hi - 1)),
{
    assert(s.take(hi).drop_last() =~= s.take(hi - 1));
}

/// Removing leading whitespace, one character at a time.
pub proof fn lemma_trim_start_step(s: Seq<char>, lo: int, hi: int)
    requires
        0 <= lo < hi <= s.len(),
        is_ws(s[lo]),
    ensures
        trim_start(s.subrange(lo, hi)) == trim_start(s.subrange(lo + 1, hi)),
{
    assert(s.subrange(lo, hi).drop_first() =~= s.subrange(lo + 1, hi));
}

/// `trim` removes whitespace only at the ends: the result is a slice.
pub proof fn lemma_trim_end_is_prefix(s: Seq<char>)
    ensures
        trim_end(s).len() <= s.len(),
        trim_end(s) =~= s.take(trim_end(s).len() as int),
        trim_end(s).len() > 0 ==> !is_ws(trim_end(s).last()),
    decreases s.len(),
{
    if s.len() > 0 && is_ws(s.last()) {
        lemma_trim_end_is_prefix(s.drop_last());
        assert(s.drop_last().take(trim_end(s).len() as int) =~= s.take(trim_end(s).len() as int));
    }
}

/// `trim_start` removes a prefix of `s`.
pub proof fn lemma_trim_start_is_suffix(s: Seq<char>)
    ensures
        trim_start(s).len() <= s.len(),
        trim_start(s) =~= s.skip(s.len() - trim_start(s).len()),
        trim_start(s).len() > 0 ==> !is_ws(trim_start(s)[0]),
    decreases s.len(),
{
    if s.len() > 0 && is_ws(s[0]) {
        lemma_trim_start_is_suffix(s.drop_first());
        assert(s.drop_first().skip(s.drop_first().len() - trim_start(s).len()) =~= s.skip(
            s.len() - trim_start(s).len(),
        ));
    }
}

/// A trimmed sequence that is empty holds only whitespace.
pub proof fn lemma_trim_empty(s: Seq<char>)
    ensures
        trim(s).len() == 0 <==> forall|j: int| 0 <= j < s.len() ==> is_ws(s[j]),
    decreases s.len(),
{
    if s.len() > 0 {
        lemma_trim_empty(s.drop_last());
        if is_ws(s.last()) {
            assert forall|j: int| 0 <= j < s.drop_last().len() implies s.drop_last()[j] == s[j] by {}
        } else {
            lemma_trim_start_is_suffix(s);
            assert(trim_end(s) == s);
            if trim(s).len() == 0 {
                // the last character is not whitespace, so trim_start keeps it
                lemma_trim_start_keeps_last(s);
            }
        }
    }
}

/// `trim_start` never removes a final character that is not whitespace.
proof fn lemma_trim_start_keeps_last(s: Seq<char>)
    requires
        s.len() > 0,
        !is_ws(s.last()),
    ensures
        trim_start(s).len() > 0,
    decreases s.len(),
{
    if is_ws(s[0]) {
        lemma_trim_start_keeps_last(s.drop_first());
    }
}

// ---------------------------------------------------------------------------
// Executable functions
// ---------------------------------------------------------------------------

/// No line of `s` holds a line feed.
pub proof fn lemma_lines_no_newline(s: Seq<char>)
    ensures
        forall|i: int| 0 <= i < lines(s).len() ==> !(#[trigger] lines(s)[i]).contains('\n'),
    decreases s.len(),
{
    if s.len() > 0 {
        lemma_first_index(s, '\n');
        match first_index(s, '\n') {
            Some(k) => {
                lemma_lines_no_newline(s.skip(k + 1));
                let l = strip_cr(s.take(k));
                assert(!l.contains('\n')) by {
                    if l.contains('\n') {
                        let j = choose|j: int| 0 <= j < l.len() && l[j] == '\n';
                        assert(s[j] == '\n');
                    }
                }
                let rest = lines(s.skip(k + 1));
                assert forall|i: int| 0 <= i < lines(s).len() implies !(#[trigger] lines(s)[i]).contains('\n') by {
                    if i > 0 {
                        assert(lines(s)[i] == rest[i - 1]);
                    }
                }
            },
            None => {},
        }
    }
}

/// Two sequences without a line break joined give none.
pub proof fn lemma_concat_no_newline(a: Seq<char>, b: Seq<char>)
    requires
        !a.contains('\n'),
        !b.contains('\n'),
    ensures
        !(a + b).contains('\n'),
{
    if (a + b).contains('\n') {
        let j = choose|j: int| 0 <= j < (a + b).len() && (a + b)[j] == '\n';
        if j < a.len() {
            assert(a[j] == '\n');
        } else {
            assert(b[j - a.len()] == '\n');
        }
    }
}

/// A text folded with a separator free of line breaks holds no line
/// break.
pub proof fn lemma_folded_one_line(s: Seq<char>, sep: Seq<char>)
    requires
        !sep.contains('\n'),
    ensures
        !folded(s, sep).contains('\n'),
{
    let ls = lines(s);
    lemma_lines_no_newline(s);
    let ts = trim_each(ls);
    assert forall|i: int| 0 <= i < ts.len() implies !(#[trigger] ts[i]).contains('\n') by {
        let lo = lemma_trim_sub(ls[i]);
        if ts[i].contains('\n') {
            let j = choose|j: int| 0 <= j < ts[i].len() && ts[i][j] == '\n';
            assert(ls[i][lo + j] == '\n');
        }
    }
    lemma_drop_empty_keeps(ts);
    lemma_join_no_newline(drop_empty(ts), sep);
}

/// Folding keeps every non-blank line: two non-blank lines fold into the
/// first trimmed, the separator and the second trimmed (a carriage
/// return before the line feed counts as trailing whitespace).
pub proof fn law_fold_keeps_both_lines(a: Seq<char>, b: Seq<char>, sep: Seq<char>)
    requires
        !a.contains('\n'),
        !b.contains('\n'),
        trim(a).len() > 0,
        trim(b).len() > 0,
    ensures
        folded(a + seq!['\n'] + b, sep) == trim(a) + sep + trim(b),
{
    let s = a + seq!['\n'] + b;
    assert forall|j: int| 0 <= j < a.len() implies s[j] != '\n' by {
        assert(s[j] == a[j]);
        assert(!a.contains('\n'));
    }
    lemma_first_index_at(s, '\n', a.len() as int);
    assert(s.take(a.len() as int) =~= a);
    assert(s.skip(a.len() as int + 1) =~= b);
    lemma_first_index_at(b, '\n', b.len() as int);
    assert(b.len() > 0);
    assert(lines(b) == seq![b]);
    assert(trim(strip_cr(a)) == trim(a)) by {
        if a.len() > 0 && a.last() == '\r' {
            assert(is_ws('\r'));
            assert(trim_end(a) == trim_end(a.drop_last()));
        }
    }
    let ls = lines(s);
    assert(ls =~= seq![strip_cr(a), b]);
    let ts = trim_each(ls);
    assert(ts =~= seq![trim(a), trim(b)]);
    assert(ts.drop_last() =~= seq![trim(a)]);
    assert(seq![trim(a)].drop_last() =~= Seq::<Seq<char>>::empty());
    assert(seq![trim(a)].last() == trim(a));
    assert(drop_empty(Seq::<Seq<char>>::empty()) == Seq::<Seq<char>>::empty());
    assert(drop_empty(seq![trim(a)]) =~= seq![trim(a)]);
    assert(ts.last() == trim(b));
    assert(drop_empty(ts) =~= seq![trim(a), trim(b)]);
    assert(seq![trim(a), trim(b)].drop_last() =~= seq![trim(a)]);
    assert(join(seq![trim(a)], sep) == trim(a));
}

/// Trimming twice trims nothing more.
pub proof fn lemma_trim_idempotent(s: Seq<char>)
    ensures
        trim(trim(s)) == trim(s),
{
    let e = trim_end(s);
    lemma_trim_end_is_prefix(s);
    lemma_trim_start_is_suffix(e);
    let u = trim_start(e);
    if u.len() > 0 {
        assert(u.last() == e.last());
        assert(trim_end(u) == u);
        assert(trim_start(u) == u);
    } else {
        assert(trim_end(u) == u);
        assert(trim_start(u) == u);
    }
}

/// Splitting into lines distributes over a concatenation at a line
/// break.
pub proof fn lemma_lines_concat(a: Seq<char>, b: Seq<char>)
    requires
        a.len() == 0 || a.last() == '\n',
    ensures
        lines(a + b) == lines(a) + lines(b),
    decreases a.len(),
{
    if a.len() == 0 {
        assert(a + b =~= b);
        assert(lines(a) =~= Seq::<Seq<char>>::empty());
        assert(lines(a) + lines(b) =~= lines(b));
    } else {
        lemma_first_index(a, '\n');
        let i = match first_index(a, '\n') {
            Some(i) => i,
            None => {
                assert(a[a.len() - 1] == '\n');
                0
            },
        };
        assert(first_index(a, '\n') == Some(i));
        let ab = a + b;
        assert forall|j: int| 0 <= j < i implies ab[j] != '\n' by {
            assert(ab[j] == a[j]);
        }
        assert(ab[i] == a[i]);
        lemma_first_index_at(ab, '\n', i);
        assert(ab.take(i) =~= a.take(i));
        let rest = a.skip(i + 1);
        assert(ab.skip(i + 1) =~= rest + b);
        if rest.len() > 0 {
            assert(rest.last() == a.last());
        }
        lemma_lines_concat(rest, b);
        assert(lines(ab) == seq![strip_cr(a.take(i))] + lines(rest + b));
        assert(lines(a) == seq![strip_cr(a.take(i))] + lines(rest));
        assert(lines(ab) =~= lines(a) + lines(b));
    }
}

/// A trimmed sequence is a slice of the original, starting at `lo`.
pub proof fn lemma_trim_sub(s: Seq<char>) -> (lo: int)
    ensures
        0 <= lo,
        lo + trim(s).len() <= s.len(),
        trim(s) == s.subrange(lo, lo + trim(s).len()),
{
    lemma_trim_end_is_prefix(s);
    lemma_trim_start_is_suffix(trim_end(s));
    let e = trim_end(s);
    let t = trim(s);
    let lo = e.len() - t.len();
    assert(t =~= s.subrange(lo, lo + t.len()));
    lo
}

/// The pieces kept by `drop_empty` are pieces of the input.
pub proof fn lemma_drop_empty_keeps(ss: Seq<Seq<char>>)
    ensures
        forall|i: int| 0 <= i < drop_empty(ss).len() ==> ss.contains(#[trigger] drop_empty(ss)[i]),
    decreases ss.len(),
{
    if ss.len() > 0 {
        lemma_drop_empty_keeps(ss.drop_last());
        let d = drop_empty(ss.drop_last());
        assert forall|i: int| 0 <= i < drop_empty(ss).len() implies ss.contains(#[trigger] drop_empty(ss)[i]) by {
            if i < d.len() {
                assert(ss.drop_last().contains(d[i]));
                let k = choose|k: int| 0 <= k < ss.drop_last().len() && ss.drop_last()[k] == d[i];
                assert(ss[k] == d[i]);
            } else {
                assert(ss[ss.len() - 1] == drop_empty(ss)[i]);
            }
        }
    }
}

/// Joining pieces without line breaks, with a separator without line
/// breaks, gives none.
pub proof fn lemma_join_no_newline(ss: Seq<Seq<char>>, sep: Seq<char>)
    requires
        forall|i: int| 0 <= i < ss.len() ==> !(#[trigger] ss[i]).contains('\n'),
        !sep.contains('\n'),
    ensures
        !join(ss, sep).contains('\n'),
    decreases ss.len(),
{
    if ss.len() > 1 {
        lemma_join_no_newline(ss.drop_last(), sep);
        let a = join(ss.drop_last(), sep);
        let b = ss.last();
        assert(!b.contains('\n')) by {
            assert(b == ss[ss.len() - 1]);
        }
        if (a + sep + b).contains('\n') {
            let j = choose|j: int| 0 <= j < (a + sep + b).len() && (a + sep + b)[j] == '\n';
            if j < a.len() {
                assert(a[j] == '\n');
            } else if j < a.len() + sep.len() {
                assert(sep[j - a.len()] == '\n');
            } else {
                assert(b[j - a.len() - sep.len()] == '\n');
            }
        }
    } else if ss.len() == 1 {
        assert(!ss[0].contains('\n'));
    }
}

/// Splitting at `c` a text made of two parts with `c` between them gives
/// the pieces of the first part followed by those of the second.
pub proof fn lemma_split_char_concat(x: Seq<char>, y: Seq<char>, c: char)
    ensures
        split_char(x + seq![c] + y, c) == split_char(x, c) + split_char(y, c),
    decreases x.len(),
{
    let s = x + seq![c] + y;
    lemma_first_index(x, c);
    match first_index(x, c) {
        None => {
            lemma_first_index_at(s, c, x.len() as int);
            assert(s.take(x.len() as int) =~= x);
            assert(s.skip(x.len() as int + 1) =~= y);
            assert(split_char(x, c) == seq![x]);
        },
        Some(i) => {
            lemma_first_index_at(s, c, i);
            let rest = x.skip(i + 1);
            assert(s.take(i) =~= x.take(i));
            assert(s.skip(i + 1) =~= rest + seq![c] + y);
            lemma_split_char_concat(rest, y, c);
            assert(split_char(s, c) =~= seq![x.take(i)] + split_char(rest, c) + split_char(y, c));
        },
    }
}

/// Splitting at `c` the pieces joined with `c` gives the pieces back,
/// when none of them holds `c`.
pub proof fn lemma_split_join(fs: Seq<Seq<char>>, c: char)
    requires
        fs.len() > 0,
        forall|i: int| 0 <= i < fs.len() ==> !(#[trigger] fs[i]).contains(c),
    ensures
        split_char(join(fs, seq![c]), c) == fs,
    decreases fs.len(),
{
    if fs.len() == 1 {
        assert(!fs[0].contains(c));
        lemma_first_index_at(fs[0], c, fs[0].len() as int);
        assert(split_char(fs[0], c) =~= fs);
    } else {
        let head = fs.drop_last();
        assert forall|i: int| 0 <= i < head.len() implies !(#[trigger] head[i]).contains(c) by {
            assert(head[i] == fs[i]);
        }
        lemma_split_join(head, c);
        let last = fs.last();
        assert(!last.contains(c)) by {
            assert(last == fs[fs.len() - 1]);
        }
        lemma_first_index_at(last, c, last.len() as int);
        lemma_split_char_concat(join(head, seq![c]), last, c);
        assert(split_char(last, c) == seq![last]);
        assert(head + seq![last] =~= fs);
    }
}

/// `char::is_whitespace`.
pub fn is_ws_char(c: char) -> (b: bool)
    ensures
        b == is_ws(c),
{
    ('\t' <= c && c <= '\r') || c == ' ' || c == '\u{85}' || c == '\u{a0}' || c == '\u{1680}' || (
    '\u{2000}' <= c && c <= '\u{200a}') || c == '\u{2028}' || c == '\u{2029}' || c == '\u{202f}'
        || c == '\u{205f}' || c == '\u{3000}'
}

/// Appends one character to `s` (std's `String::push`).
#[verifier::external_body]
pub(crate) fn push_char(s: &mut String, c: char)
    ensures
        final(s)@ == old(s)@.push(c),
{
    s.push(c);
}

/// Removes the last character of `s`, if any (std's `String::pop`).
#[verifier::external_body]
pub(crate) fn pop_char(s: &mut String)
    ensures
        final(s)@ == (if old(s)@.len() > 0 {
            old(s)@.drop_last()
        } else {
            old(s)@
        }),
{
    s.pop();
}

/// A string holding `a` followed by `b`.
pub fn cat(a: &str, b: &str) -> (r: String)
    ensures
        r@ == a@ + b@,
{
    String::from_str(a).concat(b)
}

/// Whether `a` and `b` hold the same characters.
pub fn str_eq(a: &str, b: &str) -> (r: bool)
    ensures
        r == (a@ == b@),
{
    let x = chars_of(a);
    let y = chars_of(b);
    chars_equal(x.as_slice(), y.as_slice())
}

/// The characters of `s`, in order.
pub fn chars_of(s: &str) -> (v: Vec<char>)
    ensures
        v@ == s@,
{
    let mut v: Vec<char> = Vec::new();
    for c in it: s.chars()
        invariant
            v@ == it.seq().take(it.index() as int),
    {
        v.push(c);
    }
    v
}

/// The string made of `s[lo..hi]`.
pub fn string_of(s: &[char], lo: usize, hi: usize) -> (r: String)
    requires
        lo <= hi <= s@.len(),
    ensures
        r@ == s@.subrange(lo as int, hi as int),
{
    let mut r = String::new();
    let mut i = lo;
    while i < hi
        invariant
            lo <= i <= hi <= s@.len(),
            r@ == s@.subrange(lo as int, i as int),
        decreases hi - i,
    {
        push_char(&mut r, s[i]);
        assert(s@.subrange(lo as int, i + 1) =~= s@.subrange(lo as int, i as int).push(s@[i as int]));
        i = i + 1;
    }
    r
}

/// The string made of all of `s`.
pub fn string_of_all(s: &[char]) -> (r: String)
    ensures
        r@ == s@,
{
    let r = string_of(s, 0, s.len());
    assert(s@.subrange(0, s@.len() as int) =~= s@);
    r
}

/// `s[lo..hi]` as a vector.
pub fn copy_range(s: &[char], lo: usize, hi: usize) -> (r: Vec<char>)
    requires
        lo <= hi <= s@.len(),
    ensures
        r@ == s@.subrange(lo as int, hi as int),
{
    let mut r: Vec<char> = Vec::new();
    let mut i = lo;
    while i < hi
        invariant
            lo <= i <= hi <= s@.len(),
            r@ == s@.subrange(lo as int, i as int),
        decreases hi - i,
    {
        r.push(s[i]);
        assert(s@.subrange(lo as int, i + 1) =~= s@.subrange(lo as int, i as int).push(s@[i as int]));
        i = i + 1;
    }
    r
}

/// The first index at or after `from` where `s` holds `c`, or `s.len()`.
pub fn scan_to(s: &[char], from: usize, c: char) -> (i: usize)
    requires
        from <= s@.len(),
    ensures
        from <= i <= s@.len(),
        forall|j: int| from <= j < i ==> s@[j] != c,
        i < s@.len() ==> s@[i as int] == c,
        first_index(s@.skip(from as int), c) == (if i < s@.len() {
            Some(i - from)
        } else {
            None::<int>
        }),
{
    let mut i = from;
    while i < s.len() && s[i] != c
        invariant
            from <= i <= s@.len(),
            forall|j: int| from <= j < i ==> s@[j] != c,
        decreases s@.len() - i,
    {
        i = i + 1;
    }
    proof {
        let rest = s@.skip(from as int);
        assert forall|j: int| 0 <= j < i - from implies rest[j] != c by {
            assert(rest[j] == s@[from + j]);
        }
        lemma_first_index_at(rest, c, i - from);
    }
    i
}

/// The bounds `(lo, hi)` such that `s[lo..hi]` is `trim(s)`.
pub fn trim_bounds(s: &[char]) -> (r: (usize, usize))
    ensures
        r.0 <= r.1 <= s@.len(),
        s@.subrange(r.0 as int, r.1 as int) == trim(s@),
        trim_end(s@) == s@.take(r.1 as int),
{
    let mut hi = s.len();
    assert(s@.take(hi as int) =~= s@);
    while hi > 0 && is_ws_char(s[hi - 1])
        invariant
            hi <= s@.len(),
            trim_end(s@) == trim_end(s@.take(hi as int)),
        decreases hi,
    {
        proof {
            lemma_trim_end_step(s@, hi as int);
        }
        hi = hi - 1;
    }
    assert(trim_end(s@.take(hi as int)) == s@.take(hi as int));
    let mut lo: usize = 0;
    assert(s@.subrange(0, hi as int) =~= s@.take(hi as int));
    while lo < hi && is_ws_char(s[lo])
        invariant
            lo <= hi <= s@.len(),
            trim_start(s@.take(hi as int)) == trim_start(s@.subrange(lo as int, hi as int)),
        decreases hi - lo,
    {
        proof {
            lemma_trim_start_step(s@, lo as int, hi as int);
        }
        lo = lo + 1;
    }
    assert(trim_start(s@.subrange(lo as int, hi as int)) == s@.subrange(lo as int, hi as int));
    (lo, hi)
}

/// `s` without leading and trailing whitespace.
pub fn trim_str(s: &str) -> (r: String)
    ensures
        r@ == trim(s@),
{
    let v = chars_of(s);
    let (lo, hi) = trim_bounds(v.as_slice());
    string_of(v.as_slice(), lo, hi)
}

/// The lines of `s`, each as a vector of characters (what `str::lines` yields).
pub fn lines_of(s: &[char]) -> (res: Vec<Vec<char>>)
    ensures
        views(res@) == lines(s@),
{
    let mut res: Vec<Vec<char>> = Vec::new();
    let mut start: usize = 0;
    assert(s@.skip(0) =~= s@);
    while start < s.len()
        invariant
            start <= s@.len(),
            lines(s@) == views(res@) + lines(s@.skip(start as int)),
        decreases s@.len() - start,
    {
        let i = scan_to(s, start, '\n');
        let ghost rest = s@.skip(start as int);
        let ghost old_view = views(res@);
        if i < s.len() {
            let mut hi = i;
            if hi > start && s[hi - 1] == '\r' {
                hi = hi - 1;
            }
            let line = copy_range(s, start, hi);
            proof {
                assert(rest.take(i - start) =~= s@.subrange(start as int, i as int));
                assert(rest.skip(i - start + 1) =~= s@.skip(i + 1));
                if hi < i {
                    assert(s@.subrange(start as int, i as int).drop_last() =~= s@.subrange(
                        start as int,
                        hi as int,
                    ));
                }
            }
            res.push(line);
            assert(views(res@) =~= old_view.push(strip_cr(rest.take(i - start))));
            start = i + 1;
        } else {
            let line = copy_range(s, start, s.len());
            assert(rest =~= s@.subrange(start as int, s@.len() as int));
            res.push(line);
            assert(views(res@) =~= old_view.push(rest));
            assert(s@.skip(s@.len() as int) =~= Seq::<char>::empty());
            start = s.len();
        }
    }
    assert(s@.skip(start as int) =~= Seq::<char>::empty());
    assert(views(res@) + Seq::<Seq<char>>::empty() =~= views(res@));
    res
}

/// The pieces of `s` between occurrences of `c` (what `str::split` yields).
pub fn split_on(s: &[char], c: char) -> (res: Vec<Vec<char>>)
    ensures
        views(res@) == split_char(s@, c),
        res@.len() >= 1,
{
    let mut res: Vec<Vec<char>> = Vec::new();
    let mut start: usize = 0;
    assert(s@.skip(0) =~= s@);
    loop
        invariant
            start <= s@.len(),
            split_char(s@, c) == views(res@) + split_char(s@.skip(start as int), c),
        ensures
            views(res@) == split_char(s@, c),
            res@.len() >= 1,
        decreases s@.len() - start,
    {
        let i = scan_to(s, start, c);
        let ghost rest = s@.skip(start as int);
        let ghost old_view = views(res@);
        let piece = copy_range(s, start, i);
        assert(rest.take(i - start) =~= s@.subrange(start as int, i as int));
        if i < s.len() {
            assert(rest.skip(i - start + 1) =~= s@.skip(i + 1));
            res.push(piece);
            assert(views(res@) =~= old_view.push(rest.take(i - start)));
            start = i + 1;
        } else {
            assert(rest =~= s@.subrange(start as int, s@.len() as int));
            res.push(piece);
            assert(views(res@) =~= old_view.push(rest));
            assert(old_view + seq![rest] =~= old_view.push(rest));
            return res;
        }
    }
}

/// No sequence is less than itself.
pub proof fn lemma_lex_irreflexive(a: Seq<char>)
    ensures
        !lex_lt(a, a),
    decreases a.len(),
{
    if a.len() > 0 {
        lemma_lex_irreflexive(a.drop_first());
    }
}

/// Of two different sequences exactly one is the lesser.
pub proof fn lemma_lex_total(a: Seq<char>, b: Seq<char>)
    ensures
        a != b ==> (lex_lt(a, b) || lex_lt(b, a)),
        !(lex_lt(a, b) && lex_lt(b, a)),
    decreases a.len(),
{
    if a.len() > 0 && b.len() > 0 && a[0] == b[0] {
        lemma_lex_total(a.drop_first(), b.drop_first());
        if a != b {
            assert(a.drop_first() != b.drop_first()) by {
                if a.drop_first() == b.drop_first() {
                    assert(a =~= b) by {
                        assert forall|k: int| 0 <= k < a.len() implies a[k] == b[k] by {
                            if k > 0 {
                                assert(a[k] == a.drop_first()[k - 1]);
                                assert(b[k] == b.drop_first()[k - 1]);
                            }
                        }
                    }
                }
            }
        }
    }
    if a.len() == 0 && b.len() == 0 {
        assert(a =~= b);
    }
}

/// The order is transitive.
pub proof fn lemma_lex_transitive(a: Seq<char>, b: Seq<char>, c: Seq<char>)
    requires
        lex_lt(a, b),
        lex_lt(b, c),
    ensures
        lex_lt(a, c),
    decreases a.len(),
{
    if a.len() > 0 && b.len() > 0 && c.len() > 0 && a[0] == b[0] && b[0] == c[0] {
        lemma_lex_transitive(a.drop_first(), b.drop_first(), c.drop_first());
    }
}

/// Comparing after a common prefix.
pub proof fn lemma_lex_skip(a: Seq<char>, b: Seq<char>, i: int)
    requires
        0 <= i <= a.len(),
        i <= b.len(),
        forall|k: int| 0 <= k < i ==> a[k] == b[k],
    ensures
        lex_lt(a, b) == lex_lt(a.skip(i), b.skip(i)),
    decreases i,
{
    if i > 0 {
        assert forall|k: int| 0 <= k < i - 1 implies a.drop_first()[k] == b.drop_first()[k] by {
            assert(a.drop_first()[k] == a[k + 1]);
        }
        lemma_lex_skip(a.drop_first(), b.drop_first(), i - 1);
        assert(a.drop_first().skip(i - 1) =~= a.skip(i));
        assert(b.drop_first().skip(i - 1) =~= b.skip(i));
    } else {
        assert(a.skip(0) =~= a);
        assert(b.skip(0) =~= b);
    }
}

/// Whether `a` is lexicographically less than `b`.
pub fn lex_less(a: &[char], b: &[char]) -> (r: bool)
    ensures
        r == lex_lt(a@, b@),
{
    let mut i: usize = 0;
    while i < a.len() && i < b.len() && a[i] == b[i]
        invariant
            i <= a@.len(),
            i <= b@.len(),
            forall|k: int| 0 <= k < i ==> a@[k] == b@[k],
        decreases a@.len() - i,
    {
        i = i + 1;
    }
    proof {
        lemma_lex_skip(a@, b@, i as int);
        if i < a@.len() {
            assert(a@.skip(i as int)[0] == a@[i as int]);
        }
        if i < b@.len() {
            assert(b@.skip(i as int)[0] == b@[i as int]);
        }
    }
    if i == a.len() {
        i < b.len()
    } else if i == b.len() {
        false
    } else {
        a[i] < b[i]
    }
}

/// Whether `a` and `b` hold the same characters.
pub fn chars_equal(a: &[char], b: &[char]) -> (r: bool)
    ensures
        r == (a@ == b@),
{
    if a.len() != b.len() {
        return false;
    }
    let mut i: usize = 0;
    while i < a.len()
        invariant
            i <= a@.len(),
            a@.len() == b@.len(),
            forall|k: int| 0 <= k < i ==> a@[k] == b@[k],
        decreases a@.len() - i,
    {
        if a[i] != b[i] {
            return false;
        }
        i = i + 1;
    }
    assert(a@ =~= b@);
    true
}

/// Inserts `t` into the strictly sorted `v` unless it is already there.
pub fn insert_sorted(v: &mut Vec<Vec<char>>, t: Vec<char>)
    requires
        strictly_sorted(views(old(v)@)),
    ensures
        strictly_sorted(views(final(v)@)),
        forall|x: Seq<char>|
            #[trigger] views(final(v)@).contains(x) <==> (views(old(v)@).contains(x) || x == t@),
{
    let ghost s = views(v@);
    let mut p: usize = 0;
    while p < v.len() && lex_less(v[p].as_slice(), t.as_slice())
        invariant
            p <= v@.len(),
            s == views(v@),
            forall|q: int| 0 <= q < p ==> lex_lt(#[trigger] s[q], t@),
        decreases v@.len() - p,
    {
        p = p + 1;
    }
    if p < v.len() && chars_equal(v[p].as_slice(), t.as_slice()) {
        assert(s[p as int] == t@);
        return;
    }
    let ghost tv = t@;
    v.insert(p, t);
    proof {
        let s2 = views(v@);
        assert(s2 =~= s.insert(p as int, tv));
        if p < s.len() {
            assert(s[p as int] != tv);
            lemma_lex_total(s[p as int], tv);
            assert(lex_lt(tv, s[p as int]));
        }
        assert forall|i: int, j: int| 0 <= i < j < s2.len() implies lex_lt(#[trigger] s2[i], #[trigger] s2[j]) by {
            if j < p {
                assert(s2[i] == s[i] && s2[j] == s[j]);
            } else if j == p {
                assert(s2[i] == s[i]);
            } else if i < p {
                assert(s2[i] == s[i] && s2[j] == s[j - 1]);
                if j - 1 > p {
                    assert(lex_lt(s[p as int], s[j - 1]));
                    lemma_lex_transitive(tv, s[p as int], s[j - 1]);
                }
                lemma_lex_transitive(s[i], tv, s[j - 1]);
            } else if i == p {
                assert(s2[j] == s[j - 1]);
                if j - 1 > p {
                    assert(lex_lt(s[p as int], s[j - 1]));
                    lemma_lex_transitive(tv, s[p as int], s[j - 1]);
                }
            } else {
                assert(s2[i] == s[i - 1] && s2[j] == s[j - 1]);
            }
        }
        assert forall|x: Seq<char>| #[trigger] s2.contains(x) <==> (s.contains(x) || x == tv) by {
            if s2.contains(x) {
                let k = choose|k: int| 0 <= k < s2.len() && s2[k] == x;
                if k < p {
                    assert(s[k] == x);
                } else if k > p {
                    assert(s[k - 1] == x);
                }
            }
            if s.contains(x) {
                let k = choose|k: int| 0 <= k < s.len() && s[k] == x;
                if k < p {
                    assert(s2[k] == x);
                } else {
                    assert(s2[k + 1] == x);
                }
            }
            if x == tv {
                assert(s2[p as int] == x);
            }
        }
    }
}

/// The strings of `v` joined with `sep` between each two.
pub fn join_strings(v: &Vec<String>, sep: &str) -> (r: String)
    ensures
        r@ == join(strings_view(v@), sep@),
{
    let mut r = String::new();
    let mut i: usize = 0;
    while i < v.len()
        invariant
            i <= v@.len(),
            r@ == join(strings_view(v@).take(i as int), sep@),
        decreases v@.len() - i,
    {
        let ghost prev = strings_view(v@).take(i as int);
        assert(strings_view(v@).take(i + 1).drop_last() =~= prev);
        if i > 0 {
            r.append(sep);
        } else {
            assert(strings_view(v@).take(1) =~= seq![v@[0]@]);
        }
        r.append(v[i].as_str());
        i = i + 1;
    }
    assert(strings_view(v@).take(v@.len() as int) =~= strings_view(v@));
    r
}

/// `s` folded onto one line: its non-blank lines, trimmed, joined with
/// `sep`.
pub fn fold_lines(s: &str, sep: &str) -> (r: String)
    ensures
        r@ == folded(s@, sep@),
{
    let v = chars_of(s);
    let ls = lines_of(v.as_slice());
    let ghost lv = views(ls@);
    let mut parts: Vec<String> = Vec::new();
    let mut k: usize = 0;
    while k < ls.len()
        invariant
            k <= ls@.len(),
            lv == views(ls@),
            lv == lines(s@),
            strings_view(parts@) == drop_empty(trim_each(lv.take(k as int))),
        decreases ls@.len() - k,
    {
        let (lo, hi) = trim_bounds(ls[k].as_slice());
        assert(trim_each(lv.take(k + 1)).drop_last() =~= trim_each(lv.take(k as int)));
        assert(trim_each(lv.take(k + 1)).last() == trim(ls@[k as int]@));
        if lo < hi {
            let t = string_of(ls[k].as_slice(), lo, hi);
            let ghost old_parts = parts@;
            assert(strings_view(old_parts).len() == old_parts.len());
            parts.push(t);
            assert forall|j: int| 0 <= j < parts@.len() implies #[trigger] strings_view(parts@)[j] == strings_view(old_parts).push(t@)[j] by {
                if j < old_parts.len() {
                    assert(parts@[j] == old_parts[j]);
                }
            }
            assert(strings_view(parts@) =~= strings_view(old_parts).push(t@));
        }
        k = k + 1;
    }
    assert(lv.take(ls@.len() as int) =~= lv);
    join_strings(&parts, sep)
}

/// The words of `s`: its maximal runs of non-whitespace characters, in
/// order.
pub fn split_words(s: &str) -> (r: Vec<String>)
    ensures
        strings_view(r@) == words(s@),
{
    let v = chars_of(s);
    let n = v.len();
    let mut out: Vec<String> = Vec::new();
    let mut i: usize = 0;
    assert(v@.skip(0) =~= v@);
    while i < n
        invariant
            i <= n == v@.len(),
            v@ == s@,
            strings_view(out@) + words(v@.skip(i as int)) == words(s@),
        decreases n - i,
    {
        let ghost rest = v@.skip(i as int);
        if is_ws_char(v[i]) {
            assert(rest[0] == v@[i as int]);
            assert(rest.drop_first() =~= v@.skip(i + 1));
            i = i + 1;
        } else {
            let mut j = i;
            while j < n && !is_ws_char(v[j])
                invariant
                    i <= j <= n == v@.len(),
                    forall|q: int| i <= q < j ==> !is_ws(#[trigger] v@[q]),
                decreases n - j,
            {
                j = j + 1;
            }
            proof {
                assert(rest[0] == v@[i as int]);
                assert forall|q: int| 0 <= q < j - i implies !is_ws(#[trigger] rest[q]) by {
                    assert(rest[q] == v@[i + q]);
                }
                if j < n {
                    assert(rest[j - i] == v@[j as int]);
                }
                lemma_word_len_at(rest, j - i);
                assert(rest.take(j - i) =~= v@.subrange(i as int, j as int));
                assert(rest.skip(j - i) =~= v@.skip(j as int));
            }
            let w = string_of(v.as_slice(), i, j);
            let ghost before = out@;
            out.push(w);
            proof {
                assert(strings_view(out@) =~= strings_view(before).push(w@));
                assert(words(rest) == seq![w@] + words(v@.skip(j as int)));
                assert(strings_view(before) + words(rest) =~= strings_view(out@) + words(v@.skip(j as int)));
            }
            i = j;
        }
    }
    assert(v@.skip(n as int) =~= Seq::<char>::empty());
    assert(strings_view(out@) + Seq::<Seq<char>>::empty() =~= strings_view(out@));
    out
}

fn digit_char(d: usize) -> (c: char)
    requires
        d < 10,
    ensures
        c == digit(d as nat),
{
    if d == 0 { '0' } else if d == 1 { '1' } else if d == 2 { '2' } else if d == 3 { '3' }
    else if d == 4 { '4' } else if d == 5 { '5' } else if d == 6 { '6' } else if d == 7 { '7' }
    else if d == 8 { '8' } else { '9' }
}

/// `n` in decimal (what `n.to_string()` gives).
pub fn decimal_string(n: usize) -> (r: String)
    ensures
        r@ == decimal(n as nat),
    decreases n,
{
    if n < 10 {
        let mut r = String::new();
        push_char(&mut r, digit_char(n));
        assert(r@ =~= seq![digit(n as nat)]);
        r
    } else {
        let mut r = decimal_string(n / 10);
        push_char(&mut r, digit_char(n % 10));
        r
    }
}

/// `s` padded on the left with spaces to `width` characters.
pub fn pad_left_str(s: &str, width: usize) -> (r: String)
    ensures
        r@ == pad_left(s@, width as nat),
{
    let v = chars_of(s);
    let mut r = String::new();
    let mut k: usize = v.len();
    while k < width
        invariant
            v@ == s@,
            v@.len() <= k <= width || (k == v@.len() && k >= width),
            r@ == Seq::new((k - v@.len()) as nat, |i: int| ' '),
        decreases width - k,
    {
        push_char(&mut r, ' ');
        assert(r@ =~= Seq::new((k + 1 - v@.len()) as nat, |i: int| ' '));
        k = k + 1;
    }
    r.append(s);
    if v.len() >= width {
        assert(r@ =~= s@);
    }
    r
}

} // verus!
