//! Text helpers shared by the text metrics: a whitespace tokenizer and the Levenshtein edit
//! distance over Unicode scalar values.
use crate::tally::count_where;
use vstd::prelude::*;
use vstd::string::{StrSliceExecFns, StringExecFns};

verus! {

/// The smallest of three numbers.
pub open spec fn min3(a: nat, b: nat, c: nat) -> nat {
    if a <= b && a <= c {
        a
    } else if b <= c {
        b
    } else {
        c
    }
}

/// The Levenshtein distance: the fewest single-character insertions, deletions and
/// substitutions that turn `a` into `b`.
pub open spec fn edit_distance(a: Seq<char>, b: Seq<char>) -> nat
    decreases a.len() + b.len(),
{
    if a.len() == 0 {
        b.len()
    } else if b.len() == 0 {
        a.len()
    } else {
        min3(
            edit_distance(a.drop_last(), b) + 1,
            edit_distance(a, b.drop_last()) + 1,
            edit_distance(a.drop_last(), b.drop_last()) + if a.last() == b.last() {
                0nat
            } else {
                1nat
            },
        )
    }
}

/// The distance never exceeds the longer of the two lengths.
proof fn lemma_edit_distance_bound(a: Seq<char>, b: Seq<char>)
    ensures
        edit_distance(a, b) <= if a.len() >= b.len() {
            a.len()
        } else {
            b.len()
        },
    decreases a.len() + b.len(),
{
    if a.len() > 0 && b.len() > 0 {
        lemma_edit_distance_bound(a.drop_last(), b.drop_last());
    }
}

/// The characters of a string, in order.
fn chars_of(s: &str) -> (v: Vec<char>)
    ensures
        v@ == s@,
{
    let n = s.unicode_len();
    let mut v: Vec<char> = Vec::new();
    let mut i: usize = 0;
    while i < n
        invariant
            n == s@.len(),
            i <= n,
            v@ == s@.take(i as int),
        decreases n - i,
    {
        v.push(s.get_char(i));
        i = i + 1;
        proof {
            assert(v@ =~= s@.take(i as int));
        }
    }
    proof {
        assert(s@.take(n as int) =~= s@);
    }
    v
}

/// The Levenshtein distance between two strings, counted in Unicode scalar values, by dynamic
/// programming over one row of the table at a time.
pub fn levenshtein_distance(s1: &str, s2: &str) -> (d: usize)
    requires
        s1@.len() < usize::MAX,
        s2@.len() < usize::MAX,
    ensures
        d == edit_distance(s1@, s2@),
{
    let a = chars_of(s1);
    let b = chars_of(s2);
    let n = a.len();
    let m = b.len();
    let mut prev: Vec<usize> = Vec::new();
    let mut j: usize = 0;
    while j <= m
        invariant
            m == b@.len(),
            m < usize::MAX,
            j <= m + 1,
            prev@.len() == j,
            forall|k: int| 0 <= k < j ==> #[trigger] prev@[k] == edit_distance(a@.take(0), b@.take(k)),
        decreases m + 1 - j,
    {
        proof {
            assert(a@.take(0).len() == 0);
        }
        prev.push(j);
        j = j + 1;
    }
    let mut i: usize = 1;
    while i <= n
        invariant
            n == a@.len(),
            m == b@.len(),
            n < usize::MAX,
            m < usize::MAX,
            1 <= i <= n + 1,
            prev@.len() == m + 1,
            forall|k: int|
                0 <= k <= m ==> #[trigger] prev@[k] == edit_distance(a@.take(i - 1), b@.take(k)),
        decreases n + 1 - i,
    {
        let ghost ai = a@.take(i as int);
        proof {
            assert(ai.drop_last() =~= a@.take(i - 1));
            assert(b@.take(0).len() == 0);
        }
        let mut cur: Vec<usize> = Vec::new();
        cur.push(i);
        let mut k: usize = 1;
        while k <= m
            invariant
                n == a@.len(),
                m == b@.len(),
                n < usize::MAX,
                m < usize::MAX,
                1 <= i <= n,
                1 <= k <= m + 1,
                ai == a@.take(i as int),
                ai.drop_last() == a@.take(i - 1),
                prev@.len() == m + 1,
                cur@.len() == k,
                forall|q: int|
                    0 <= q <= m ==> #[trigger] prev@[q] == edit_distance(a@.take(i - 1), b@.take(q)),
                forall|q: int| 0 <= q < k ==> #[trigger] cur@[q] == edit_distance(ai, b@.take(q)),
            decreases m + 1 - k,
        {
            let ghost bk = b@.take(k as int);
            proof {
                assert(bk.drop_last() =~= b@.take(k - 1));
                assert(ai.last() == a@[i - 1]);
                assert(bk.last() == b@[k - 1]);
                lemma_edit_distance_bound(a@.take(i - 1), bk);
                lemma_edit_distance_bound(ai, b@.take(k - 1));
                lemma_edit_distance_bound(a@.take(i - 1), b@.take(k - 1));
            }
            let cost: usize = if a[i - 1] == b[k - 1] {
                0
            } else {
                1
            };
            let deletion = prev[k] + 1;
            let insertion = cur[k - 1] + 1;
            let substitution = prev[k - 1] + cost;
            let best = if deletion <= insertion && deletion <= substitution {
                deletion
            } else if insertion <= substitution {
                insertion
            } else {
                substitution
            };
            cur.push(best);
            k = k + 1;
        }
        prev = cur;
        i = i + 1;
    }
    proof {
        assert(a@.take(n as int) =~= a@);
        assert(b@.take(m as int) =~= b@);
    }
    prev[m]
}

/// The characters with the Unicode `White_Space` property.
pub open spec fn is_white_space(c: char) -> bool {
    let u = c as u32;
    ||| 0x09 <= u <= 0x0D
    ||| u == 0x20
    ||| u == 0x85
    ||| u == 0xA0
    ||| u == 0x1680
    ||| 0x2000 <= u <= 0x200A
    ||| u == 0x2028
    ||| u == 0x2029
    ||| u == 0x202F
    ||| u == 0x205F
    ||| u == 0x3000
}

/// Whether `c` has the Unicode `White_Space` property, as `char::is_whitespace` answers.
pub fn white_space(c: char) -> (r: bool)
    ensures
        r == is_white_space(c),
{
    let u = c as u32;
    (0x09 <= u && u <= 0x0D) || u == 0x20 || u == 0x85 || u == 0xA0 || u == 0x1680 || (0x2000
        <= u && u <= 0x200A) || u == 0x2028 || u == 0x2029 || u == 0x202F || u == 0x205F || u
        == 0x3000
}

/// The maximal runs of non-whitespace characters of `s`, in order.
pub open spec fn words(s: Seq<char>) -> Seq<Seq<char>>
    decreases s.len(),
{
    if s.len() == 0 {
        Seq::empty()
    } else {
        let earlier = words(s.drop_last());
        let c = s.last();
        if is_white_space(c) {
            earlier
        } else if s.len() >= 2 && !is_white_space(s[s.len() - 2]) {
            earlier.update(earlier.len() - 1, earlier.last().push(c))
        } else {
            earlier.push(seq![c])
        }
    }
}

/// Splits a text into its whitespace-separated tokens, in order.
pub fn tokenize(input: &str) -> (tokens: Vec<&str>)
    ensures
        tokens@.len() == words(input@).len(),
        forall|k: int| 0 <= k < tokens@.len() ==> (#[trigger] tokens@[k])@ == words(input@)[k],
{
    let chars = chars_of(input);
    let n = chars.len();
    let mut tokens: Vec<&str> = Vec::new();
    let mut start: usize = 0;
    let mut in_word = false;
    let mut i: usize = 0;
    while i < n
        invariant
            chars@ == input@,
            n == input@.len(),
            i <= n,
            start <= i,
            in_word == (i > 0 && !is_white_space(input@[i - 1])),
            in_word ==> words(input@.take(i as int)).len() == tokens@.len() + 1
                && words(input@.take(i as int)).last() == input@.subrange(start as int, i as int),
            !in_word ==> words(input@.take(i as int)).len() == tokens@.len(),
            forall|k: int|
                0 <= k < tokens@.len() ==> (#[trigger] tokens@[k])@ == words(input@.take(i as int))[k],
        decreases n - i,
    {
        let ghost before = input@.take(i as int);
        let ghost after = input@.take(i + 1);
        proof {
            assert(after.drop_last() =~= before);
            assert(after.last() == input@[i as int]);
            if i > 0 {
                assert(after[after.len() - 2] == input@[i - 1]);
            }
        }
        let c = chars[i];
        if white_space(c) {
            if in_word {
                let token = input.substring_char(start, i);
                tokens.push(token);
                in_word = false;
            }
        } else {
            if !in_word {
                start = i;
                in_word = true;
                proof {
                    assert(input@.subrange(i as int, i + 1) =~= seq![c]);
                }
            } else {
                proof {
                    assert(input@.subrange(start as int, i + 1) =~= input@.subrange(
                        start as int,
                        i as int,
                    ).push(c));
                }
            }
        }
        i = i + 1;
    }
    proof {
        assert(input@.take(n as int) =~= input@);
    }
    if in_word {
        let token = input.substring_char(start, n);
        tokens.push(token);
    }
    tokens
}

/// The length of a longest common subsequence of two token sequences.
pub open spec fn common_subsequence(a: Seq<Seq<char>>, b: Seq<Seq<char>>) -> nat
    decreases a.len() + b.len(),
{
    if a.len() == 0 || b.len() == 0 {
        0
    } else if a.last() == b.last() {
        common_subsequence(a.drop_last(), b.drop_last()) + 1
    } else {
        let x = common_subsequence(a.drop_last(), b);
        let y = common_subsequence(a, b.drop_last());
        if x >= y {
            x
        } else {
            y
        }
    }
}

/// A common subsequence is no longer than the first sequence.
proof fn lemma_common_subsequence_bound(a: Seq<Seq<char>>, b: Seq<Seq<char>>)
    ensures
        common_subsequence(a, b) <= a.len(),
    decreases a.len() + b.len(),
{
    if a.len() > 0 && b.len() > 0 {
        lemma_common_subsequence_bound(a.drop_last(), b.drop_last());
        lemma_common_subsequence_bound(a.drop_last(), b);
        lemma_common_subsequence_bound(a, b.drop_last());
    }
}

/// The tokens as character sequences.
pub open spec fn token_views(tokens: Seq<String>) -> Seq<Seq<char>> {
    tokens.map_values(|t: String| t@)
}

/// The length of a longest common subsequence of two token sequences, by dynamic programming
/// over one row of the table at a time.
pub fn lcs_length(pred_tokens: &[String], target_tokens: &[String]) -> (l: usize)
    ensures
        l == common_subsequence(token_views(pred_tokens@), token_views(target_tokens@)),
{
    let ghost a = token_views(pred_tokens@);
    let ghost b = token_views(target_tokens@);
    let n = pred_tokens.len();
    let m = target_tokens.len();
    if n == 0 || m == 0 {
        return 0;
    }
    let mut prev: Vec<usize> = Vec::new();
    prev.push(0);
    let mut j: usize = 0;
    while j < m
        invariant
            m == b.len(),
            j <= m,
            prev@.len() == j + 1,
            forall|k: int| 0 <= k <= j ==> #[trigger] prev@[k] == common_subsequence(a.take(0), b.take(k)),
        decreases m - j,
    {
        prev.push(0);
        j = j + 1;
    }
    let mut i: usize = 0;
    while i < n
        invariant
            a == token_views(pred_tokens@),
            b == token_views(target_tokens@),
            n == a.len(),
            m == b.len(),
            i <= n,
            prev@.len() == m + 1,
            forall|k: int|
                0 <= k <= m ==> #[trigger] prev@[k] == common_subsequence(a.take(i as int), b.take(k)),
        decreases n - i,
    {
        let ghost ai = a.take(i + 1);
        proof {
            assert(ai.drop_last() =~= a.take(i as int));
        }
        let mut cur: Vec<usize> = Vec::new();
        cur.push(0);
        let mut k: usize = 0;
        while k < m
            invariant
                a == token_views(pred_tokens@),
                b == token_views(target_tokens@),
                n == a.len(),
                m == b.len(),
                i < n,
                k <= m,
                ai == a.take(i + 1),
                ai.drop_last() == a.take(i as int),
                prev@.len() == m + 1,
                cur@.len() == k + 1,
                forall|q: int|
                    0 <= q <= m ==> #[trigger] prev@[q] == common_subsequence(a.take(i as int), b.take(q)),
                forall|q: int| 0 <= q <= k ==> #[trigger] cur@[q] == common_subsequence(ai, b.take(q)),
            decreases m - k,
        {
            let ghost bk = b.take(k + 1);
            proof {
                assert(bk.drop_last() =~= b.take(k as int));
                assert(ai.last() == pred_tokens@[i as int]@);
                assert(bk.last() == target_tokens@[k as int]@);
                lemma_common_subsequence_bound(a.take(i as int), b.take(k as int));
            }
            let value = if pred_tokens[i] == target_tokens[k] {
                prev[k] + 1
            } else if prev[k + 1] >= cur[k] {
                prev[k + 1]
            } else {
                cur[k]
            };
            cur.push(value);
            k = k + 1;
        }
        prev = cur;
        i = i + 1;
    }
    proof {
        assert(a.take(n as int) =~= a);
        assert(b.take(m as int) =~= b);
    }
    prev[m]
}

/// `c` in lower case if it is an ASCII capital letter, unchanged otherwise.
pub open spec fn ascii_lowercase(c: char) -> char {
    if 'A' <= c && c <= 'Z' {
        ((c as u32) + 32) as char
    } else {
        c
    }
}

/// What `char::is_alphanumeric` answers for `c`: whether Unicode counts it alphabetic or
/// numeric.
pub uninterp spec fn alphanumeric(c: char) -> bool;

/// Relies on `char::is_alphanumeric`, whose answer depends on the character alone.
#[verifier::external_body]
fn is_alphanumeric(c: char) -> (r: bool)
    ensures
        r == alphanumeric(c),
{
    c.is_alphanumeric()
}

/// `c` in lower case if it is an ASCII capital letter, unchanged otherwise, as
/// `char::to_ascii_lowercase` gives it.
pub fn to_ascii_lowercase(c: char) -> (r: char)
    ensures
        r == ascii_lowercase(c),
{
    if 'A' <= c && c <= 'Z' {
        ((c as u8) + 32) as char
    } else {
        c
    }
}

/// Relies on collecting characters into a `String` (`FromIterator<char>`): the string of the
/// characters, in order.
#[verifier::external_body]
fn string_from_chars(chars: &Vec<char>) -> (s: String)
    ensures
        s@ == chars@,
{
    chars.iter().collect()
}

/// The text with its letters and digits kept, ASCII capitals lowered, and every other
/// character replaced by a space.
pub open spec fn normalized(s: Seq<char>) -> Seq<char> {
    Seq::new(
        s.len(),
        |i: int|
            if alphanumeric(s[i]) {
                ascii_lowercase(s[i])
            } else {
                ' '
            },
    )
}

/// The normalized form of one character, given whether it is alphanumeric: lowered if it is
/// an ASCII capital, kept if it is any other letter or digit, a space otherwise.
pub fn normalize_char(c: char, is_letter_or_digit: bool) -> (r: char)
    ensures
        r == if is_letter_or_digit {
            ascii_lowercase(c)
        } else {
            ' '
        },
{
    if is_letter_or_digit {
        to_ascii_lowercase(c)
    } else {
        ' '
    }
}

/// Keeps letters and digits, lowering ASCII capitals, and turns everything else into spaces.
pub fn normalize_text(input: &str) -> (r: String)
    ensures
        r@ == normalized(input@),
{
    let chars = chars_of(input);
    let mut out: Vec<char> = Vec::new();
    let mut i: usize = 0;
    while i < chars.len()
        invariant
            chars@ == input@,
            i <= chars@.len(),
            out@ == normalized(input@).take(i as int),
        decreases chars@.len() - i,
    {
        let c = chars[i];
        out.push(normalize_char(c, is_alphanumeric(c)));
        i = i + 1;
        proof {
            assert(out@ =~= normalized(input@).take(i as int));
        }
    }
    proof {
        assert(normalized(input@).take(i as int) =~= normalized(input@));
    }
    string_from_chars(&out)
}

/// The words of a text: the whitespace-separated tokens of its normalized form.
pub fn tokenize_words(text: &str) -> (r: Vec<String>)
    ensures
        r@.len() == words(normalized(text@)).len(),
        forall|k: int| 0 <= k < r@.len() ==> (#[trigger] r@[k])@ == words(normalized(text@))[k],
{
    let normalized_text = normalize_text(text);
    let tokens = tokenize(normalized_text.as_str());
    let mut out: Vec<String> = Vec::new();
    let mut k: usize = 0;
    while k < tokens.len()
        invariant
            k <= tokens@.len(),
            tokens@.len() == words(normalized(text@)).len(),
            forall|j: int| 0 <= j < tokens@.len() ==> (#[trigger] tokens@[j])@ == words(normalized(text@))[j],
            out@.len() == k,
            forall|j: int| 0 <= j < k ==> (#[trigger] out@[j])@ == words(normalized(text@))[j],
        decreases tokens@.len() - k,
    {
        out.push(String::from_str(tokens[k]));
        k = k + 1;
    }
    out
}

/// The `n` tokens of `s` that start at position `i`.
pub open spec fn ngram_at(s: Seq<Seq<char>>, i: int, n: nat) -> Seq<Seq<char>> {
    s.subrange(i, i + n)
}

/// The number of `n`-grams in a sequence of `len` tokens.
pub open spec fn ngram_total(len: nat, n: nat) -> nat {
    if len >= n {
        (len - n + 1) as nat
    } else {
        0
    }
}

/// The number of `n`-grams in a sequence of `len` tokens.
pub fn count_ngrams(len: usize, n: usize) -> (r: usize)
    requires
        n >= 1,
    ensures
        r == ngram_total(len as nat, n as nat),
{
    if len >= n {
        len - n + 1
    } else {
        0
    }
}

/// How many of the `n`-grams of `s` that start before `end` equal `g`.
pub open spec fn ngram_count(s: Seq<Seq<char>>, g: Seq<Seq<char>>, n: nat, end: nat) -> nat {
    count_where(end, |j: int| ngram_at(s, j, n) == g)
}

/// The clipped overlap of the `n`-grams of `pred` with those of `target`: the sum, over
/// distinct `n`-grams, of the smaller of their two counts. Position by position: an `n`-gram of
/// `pred` counts when fewer equal `n`-grams come before it in `pred` than `target` holds.
pub open spec fn clipped_overlap(pred: Seq<Seq<char>>, target: Seq<Seq<char>>, n: nat) -> nat {
    count_where(
        ngram_total(pred.len(), n),
        |i: int|
            ngram_count(pred, ngram_at(pred, i, n), n, i as nat) < ngram_count(
                target,
                ngram_at(pred, i, n),
                n,
                ngram_total(target.len(), n),
            ),
    )
}

/// Whether the `n` tokens of `a` from `i` equal the `n` tokens of `b` from `j`.
fn ngram_equal(a: &[String], i: usize, b: &[String], j: usize, n: usize) -> (r: bool)
    requires
        i + n <= a@.len(),
        j + n <= b@.len(),
    ensures
        r == (ngram_at(token_views(a@), i as int, n as nat) == ngram_at(
            token_views(b@),
            j as int,
            n as nat,
        )),
{
    let ghost x = ngram_at(token_views(a@), i as int, n as nat);
    let ghost y = ngram_at(token_views(b@), j as int, n as nat);
    let a_len = a.len();
    let b_len = b.len();
    let mut k: usize = 0;
    while k < n
        invariant
            a_len == a@.len(),
            b_len == b@.len(),
            i + n <= a@.len(),
            j + n <= b@.len(),
            k <= n,
            x == ngram_at(token_views(a@), i as int, n as nat),
            y == ngram_at(token_views(b@), j as int, n as nat),
            forall|q: int| 0 <= q < k ==> x[q] == y[q],
        decreases n - k,
    {
        if a[i + k] != b[j + k] {
            proof {
                assert(x[k as int] == a@[i + k]@);
                assert(y[k as int] == b@[j + k]@);
                assert(x[k as int] != y[k as int]);
            }
            return false;
        }
        proof {
            assert(x[k as int] == a@[i + k]@);
            assert(y[k as int] == b@[j + k]@);
        }
        k = k + 1;
    }
    proof {
        assert(x =~= y);
    }
    true
}

/// How many of the `n`-grams of `s` that start before `end` equal the `n`-gram of `pattern`
/// at `start`.
fn count_equal_ngrams(s: &[String], end: usize, pattern: &[String], start: usize, n: usize) -> (c: usize)
    requires
        end <= ngram_total(s@.len(), n as nat),
        start + n <= pattern@.len(),
    ensures
        c == ngram_count(
            token_views(s@),
            ngram_at(token_views(pattern@), start as int, n as nat),
            n as nat,
            end as nat,
        ),
{
    let ghost g = ngram_at(token_views(pattern@), start as int, n as nat);
    let ghost f = |j: int| ngram_at(token_views(s@), j, n as nat) == g;
    let mut c: usize = 0;
    let mut j: usize = 0;
    while j < end
        invariant
            end <= ngram_total(s@.len(), n as nat),
            start + n <= pattern@.len(),
            g == ngram_at(token_views(pattern@), start as int, n as nat),
            f == (|j: int| ngram_at(token_views(s@), j, n as nat) == g),
            j <= end,
            c == count_where(j as nat, f),
            c <= j,
        decreases end - j,
    {
        if ngram_equal(s, j, pattern, start, n) {
            c = c + 1;
        }
        j = j + 1;
    }
    c
}

/// The clipped overlap of the `n`-grams of two token sequences (see [`clipped_overlap`]): how
/// many `n`-grams of the prediction the target matches, each target `n`-gram matching once.
pub fn ngram_overlap(pred_tokens: &[String], target_tokens: &[String], n: usize) -> (r: usize)
    requires
        n >= 1,
    ensures
        r == clipped_overlap(token_views(pred_tokens@), token_views(target_tokens@), n as nat),
{
    let ghost p = token_views(pred_tokens@);
    let ghost t = token_views(target_tokens@);
    if pred_tokens.len() < n {
        return 0;
    }
    let pred_total = pred_tokens.len() - n + 1;
    let target_total: usize = if target_tokens.len() >= n {
        target_tokens.len() - n + 1
    } else {
        0
    };
    let ghost f = |i: int|
        ngram_count(p, ngram_at(p, i, n as nat), n as nat, i as nat) < ngram_count(
            t,
            ngram_at(p, i, n as nat),
            n as nat,
            ngram_total(t.len(), n as nat),
        );
    let mut overlap: usize = 0;
    let mut i: usize = 0;
    while i < pred_total
        invariant
            n >= 1,
            p == token_views(pred_tokens@),
            t == token_views(target_tokens@),
            pred_total == ngram_total(p.len(), n as nat),
            target_total == ngram_total(t.len(), n as nat),
            pred_total + n - 1 == pred_tokens@.len(),
            f == (|i: int|
                ngram_count(p, ngram_at(p, i, n as nat), n as nat, i as nat) < ngram_count(
                    t,
                    ngram_at(p, i, n as nat),
                    n as nat,
                    ngram_total(t.len(), n as nat),
                )),
            i <= pred_total,
            overlap == count_where(i as nat, f),
            overlap <= i,
        decreases pred_total - i,
    {
        let earlier = count_equal_ngrams(pred_tokens, i, pred_tokens, i, n);
        let copies = count_equal_ngrams(target_tokens, target_total, pred_tokens, i, n);
        if earlier < copies {
            overlap = overlap + 1;
        }
        i = i + 1;
    }
    overlap
}

/// The ROUGE variants: unigram and bigram overlap, longest common subsequence over the whole
/// text, and over the text taken line by line.
#[derive(Clone, Copy, Debug, PartialEq, Eq, Structural)]
pub enum RougeKind {
    Rouge1,
    Rouge2,
    RougeL,
    RougeLsum,
}

impl RougeKind {
    /// The position of the variant in reports, from zero.
    pub fn index(self) -> (i: usize)
        ensures
            i < 4,
            i == 0 <==> self == RougeKind::Rouge1,
            i == 1 <==> self == RougeKind::Rouge2,
            i == 2 <==> self == RougeKind::RougeL,
            i == 3 <==> self == RougeKind::RougeLsum,
    {
        match self {
            RougeKind::Rouge1 => 0,
            RougeKind::Rouge2 => 1,
            RougeKind::RougeL => 2,
            RougeKind::RougeLsum => 3,
        }
    }

    /// The name of the variant in reports.
    pub fn label(self) -> (l: &'static str)
        ensures
            self == RougeKind::Rouge1 ==> l@ == "rouge1"@,
            self == RougeKind::Rouge2 ==> l@ == "rouge2"@,
            self == RougeKind::RougeL ==> l@ == "rougeL"@,
            self == RougeKind::RougeLsum ==> l@ == "rougeLsum"@,
    {
        match self {
            RougeKind::Rouge1 => "rouge1",
            RougeKind::Rouge2 => "rouge2",
            RougeKind::RougeL => "rougeL",
            RougeKind::RougeLsum => "rougeLsum",
        }
    }
}

/// The lines of `s`, as splitting at every `'\n'` gives them (an empty text is one empty line).
pub open spec fn lines(s: Seq<char>) -> Seq<Seq<char>>
    decreases s.len(),
{
    if s.len() == 0 {
        seq![Seq::empty()]
    } else {
        let earlier = lines(s.drop_last());
        if s.last() == '\n' {
            earlier.push(Seq::empty())
        } else {
            earlier.update(earlier.len() - 1, earlier.last().push(s.last()))
        }
    }
}

/// A text always has at least one line.
proof fn lemma_lines_nonempty(s: Seq<char>)
    ensures
        lines(s).len() >= 1,
    decreases s.len(),
{
    if s.len() > 0 {
        lemma_lines_nonempty(s.drop_last());
    }
}

/// True when the line holds nothing but whitespace.
pub open spec fn is_blank(line: Seq<char>) -> bool {
    forall|k: int| 0 <= k < line.len() ==> is_white_space(#[trigger] line[k])
}

/// The words of each non-blank line, each line followed by the marker `<n>`.
pub open spec fn marked_words(ls: Seq<Seq<char>>) -> Seq<Seq<char>>
    decreases ls.len(),
{
    if ls.len() == 0 {
        Seq::empty()
    } else {
        marked_words(ls.drop_last()) + line_contribution(ls.last())
    }
}

/// The words of a text line by line, a `<n>` marker between non-blank lines.
pub open spec fn line_separated_words(s: Seq<char>) -> Seq<Seq<char>> {
    let t = marked_words(lines(s));
    if t.len() > 0 && t.last() == "<n>"@ {
        t.drop_last()
    } else {
        t
    }
}

/// Whether the characters of `chars` from `start` to `end` are all whitespace.
fn blank_range(chars: &Vec<char>, start: usize, end: usize) -> (r: bool)
    requires
        start <= end <= chars@.len(),
    ensures
        r == is_blank(chars@.subrange(start as int, end as int)),
{
    let mut k = start;
    while k < end
        invariant
            start <= k <= end,
            end <= chars@.len(),
            forall|q: int| start <= q < k ==> is_white_space(#[trigger] chars@[q]),
        decreases end - k,
    {
        if !white_space(chars[k]) {
            proof {
                let line = chars@.subrange(start as int, end as int);
                assert(line[k - start] == chars@[k as int]);
            }
            return false;
        }
        k = k + 1;
    }
    proof {
        let line = chars@.subrange(start as int, end as int);
        assert forall|q: int| 0 <= q < line.len() implies is_white_space(#[trigger] line[q]) by {
            assert(line[q] == chars@[start + q]);
        }
    }
    true
}

/// What a line adds to [`marked_words`]: nothing if it is blank, else its words and `<n>`.
pub open spec fn line_contribution(line: Seq<char>) -> Seq<Seq<char>> {
    if is_blank(line) {
        Seq::empty()
    } else {
        words(normalized(line)).push("<n>"@)
    }
}

/// Appends the words of the line `text[start..end]` and the marker `<n>`, unless the line is
/// blank.
fn push_line_words(tokens: &mut Vec<String>, text: &str, chars: &Vec<char>, start: usize, end: usize)
    requires
        chars@ == text@,
        start <= end <= chars@.len(),
    ensures
        token_views(final(tokens)@) == token_views(old(tokens)@) + line_contribution(
            text@.subrange(start as int, end as int),
        ),
{
    let ghost before = token_views(tokens@);
    let ghost line = text@.subrange(start as int, end as int);
    if blank_range(chars, start, end) {
        proof {
            assert(before + Seq::<Seq<char>>::empty() =~= before);
        }
        return;
    }
    let words_of_line = tokenize_words(text.substring_char(start, end));
    let mut k: usize = 0;
    while k < words_of_line.len()
        invariant
            k <= words_of_line@.len(),
            line == text@.subrange(start as int, end as int),
            words_of_line@.len() == words(normalized(line)).len(),
            forall|j: int|
                0 <= j < words_of_line@.len() ==> (#[trigger] words_of_line@[j])@ == words(
                    normalized(line),
                )[j],
            token_views(tokens@) == before + words(normalized(line)).take(k as int),
        decreases words_of_line@.len() - k,
    {
        let ghost prev = tokens@;
        let word = words_of_line[k].clone();
        tokens.push(word);
        proof {
            let w = words(normalized(line));
            assert(token_views(tokens@) =~= token_views(prev).push(word@));
            assert(w.take(k + 1) =~= w.take(k as int).push(w[k as int]));
            assert(token_views(tokens@) =~= before + w.take(k + 1));
        }
        k = k + 1;
    }
    let ghost prev = tokens@;
    let marker = String::from_str("<n>");
    tokens.push(marker);
    proof {
        assert(token_views(tokens@) =~= token_views(prev).push(marker@));
        assert(words(normalized(line)).take(k as int) =~= words(normalized(line)));
        assert(token_views(tokens@) =~= before + words(normalized(line)).push("<n>"@));
    }
}

/// The words of a text line by line: each non-blank line gives its words (see
/// [`tokenize_words`]) followed by the marker `<n>`, and a final marker is dropped.
pub fn tokenize_with_newlines(text: &str) -> (r: Vec<String>)
    ensures
        r@.len() == line_separated_words(text@).len(),
        forall|k: int| 0 <= k < r@.len() ==> (#[trigger] r@[k])@ == line_separated_words(text@)[k],
{
    let chars = chars_of(text);
    let n = chars.len();
    let mut tokens: Vec<String> = Vec::new();
    let mut start: usize = 0;
    let mut i: usize = 0;
    proof {
        assert(text@.take(0) =~= Seq::<char>::empty());
        assert(lines(text@.take(0)).drop_last() =~= Seq::<Seq<char>>::empty());
        assert(text@.subrange(0, 0) =~= Seq::<char>::empty());
    }
    while i < n
        invariant
            chars@ == text@,
            n == text@.len(),
            start <= i <= n,
            lines(text@.take(i as int)).len() >= 1,
            lines(text@.take(i as int)).last() == text@.subrange(start as int, i as int),
            token_views(tokens@) == marked_words(lines(text@.take(i as int)).drop_last()),
        decreases n - i,
    {
        let ghost ls = lines(text@.take(i as int));
        let ghost line = text@.subrange(start as int, i as int);
        let t1 = Ghost(text@.take(i + 1));
        proof {
            assert(t1@.drop_last() =~= text@.take(i as int));
            assert(t1@.last() == chars@[i as int]);
        }
        if chars[i] == '\n' {
            push_line_words(&mut tokens, text, &chars, start, i);
            proof {
                assert(lines(t1@).drop_last() =~= ls);
                assert(ls.drop_last().push(line) =~= ls);
                assert(marked_words(ls) =~= marked_words(ls.drop_last()) + line_contribution(line));
                assert(text@.subrange(i + 1, i + 1) =~= Seq::<char>::empty());
            }
            start = i + 1;
        } else {
            proof {
                assert(lines(t1@).drop_last() =~= ls.drop_last());
                assert(text@.subrange(start as int, i + 1) =~= line.push(chars@[i as int]));
            }
        }
        i = i + 1;
    }
    proof {
        assert(text@.take(n as int) =~= text@);
        lemma_lines_nonempty(text@);
    }
    let ghost ls = lines(text@);
    push_line_words(&mut tokens, text, &chars, start, n);
    proof {
        let line = text@.subrange(start as int, n as int);
        assert(ls.drop_last().push(line) =~= ls);
        assert(marked_words(ls) =~= marked_words(ls.drop_last()) + line_contribution(line));
    }
    let marker = String::from_str("<n>");
    let len = tokens.len();
    if len > 0 && tokens[len - 1] == marker {
        tokens.pop();
        proof {
            assert(token_views(tokens@) =~= marked_words(lines(text@)).drop_last());
        }
    }
    tokens
}

} // verus!
