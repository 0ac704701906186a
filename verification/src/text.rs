//! Text as sequences of characters: conversions between `str` and `Vec<char>`,
//! prefix and infix tests, and splitting at white space.

use vstd::prelude::*;

verus! {

/// `String::push` appends one character to the end of the string.
pub assume_specification[ String::push ](s: &mut String, ch: char)
    ensures
        final(s)@ == old(s)@.push(ch),
;

/// The characters of `s`, in order, as a vector.
pub fn chars_of(s: &str) -> (out: Vec<char>)
    ensures
        out@ == s@,
{
    let mut out: Vec<char> = Vec::new();
    let chars = s.chars();
    for c in it: chars
        invariant
            out@ == it.seq().take(it.index() as int),
            it.seq() == s@,
    {
        out.push(c);
    }
    out
}

/// The string that holds exactly the characters of `chars`.
pub fn string_of(chars: &Vec<char>) -> (out: String)
    ensures
        out@ == chars@,
{
    let mut out = String::new();
    let mut i: usize = 0;
    while i < chars.len()
        invariant
            i <= chars.len(),
            out@ == chars@.take(i as int),
        decreases chars.len() - i,
    {
        out.push(chars[i]);
        i += 1;
    }
    out
}

/// Whether two character vectors hold the same text.
pub fn same_text(a: &Vec<char>, b: &Vec<char>) -> (r: bool)
    ensures
        r == (a@ == b@),
{
    if a.len() != b.len() {
        return false;
    }
    let mut i: usize = 0;
    while i < a.len()
        invariant
            i <= a.len(),
            a.len() == b.len(),
            a@.take(i as int) == b@.take(i as int),
        decreases a.len() - i,
    {
        if a[i] != b[i] {
            return false;
        }
        assert(a@.take(i + 1) == a@.take(i as int).push(a@[i as int]));
        assert(b@.take(i + 1) == b@.take(i as int).push(b@[i as int]));
        i += 1;
    }
    assert(a@.take(a.len() as int) == a@);
    assert(b@.take(b.len() as int) == b@);
    true
}

/// Whether `p` occurs in `s` starting at index `i`.
pub open spec fn occurs_at(s: Seq<char>, p: Seq<char>, i: int) -> bool {
    0 <= i && i + p.len() <= s.len() && s.subrange(i, i + p.len()) == p
}

/// Whether `s` begins with `p`.
pub open spec fn has_prefix(s: Seq<char>, p: Seq<char>) -> bool {
    occurs_at(s, p, 0)
}

/// Whether `p` occurs somewhere in `s`.
pub open spec fn has_infix(s: Seq<char>, p: Seq<char>) -> bool {
    exists|i: int| occurs_at(s, p, i)
}

/// Tests whether `p` occurs in `s` at index `i`.
pub fn matches_at(s: &Vec<char>, p: &Vec<char>, i: usize) -> (r: bool)
    ensures
        r == occurs_at(s@, p@, i as int),
{
    if i > s.len() || p.len() > s.len() - i {
        return false;
    }
    let mut k: usize = 0;
    while k < p.len()
        invariant
            k <= p.len(),
            i + p.len() <= s.len(),
            s@.subrange(i as int, i + k) == p@.take(k as int),
        decreases p.len() - k,
    {
        if s[i + k] != p[k] {
            assert(s@.subrange(i as int, i + p.len())[k as int] != p@[k as int]);
            return false;
        }
        assert(s@.subrange(i as int, i + k + 1) == s@.subrange(i as int, i + k).push(
            s@[i + k],
        ));
        assert(p@.take(k + 1) == p@.take(k as int).push(p@[k as int]));
        k += 1;
    }
    assert(p@.take(p.len() as int) == p@);
    true
}

/// Tests whether `s` begins with `p`.
pub fn starts_with(s: &Vec<char>, p: &Vec<char>) -> (r: bool)
    ensures
        r == has_prefix(s@, p@),
{
    matches_at(s, p, 0)
}

/// Tests whether `p` occurs somewhere in `s`.
pub fn contains(s: &Vec<char>, p: &Vec<char>) -> (r: bool)
    ensures
        r == has_infix(s@, p@),
{
    if p.len() > s.len() {
        return false;
    }
    let last: usize = s.len() - p.len();
    let mut i: usize = 0;
    loop
        invariant
            i <= last,
            last == s.len() - p.len(),
            p.len() <= s.len(),
            forall|j: int| 0 <= j < i ==> !occurs_at(s@, p@, j),
        decreases last - i,
    {
        if matches_at(s, p, i) {
            return true;
        }
        if i == last {
            return false;
        }
        i += 1;
    }
}

/// Whether `c` is white space, as `char::is_whitespace` has it: the Unicode
/// property `White_Space`.
pub open spec fn is_space(c: char) -> bool {
    let u = c as u32;
    (0x09 <= u <= 0x0d) || u == 0x20 || u == 0x85 || u == 0xa0 || u == 0x1680 || (0x2000 <= u
        <= 0x200a) || u == 0x2028 || u == 0x2029 || u == 0x202f || u == 0x205f || u == 0x3000
}

/// Tests whether `c` is white space.
pub fn char_is_space(c: char) -> (r: bool)
    ensures
        r == is_space(c),
{
    let u: u32 = c as u32;
    (0x09 <= u && u <= 0x0d) || u == 0x20 || u == 0x85 || u == 0xa0 || u == 0x1680 || (0x2000 <= u
        && u <= 0x200a) || u == 0x2028 || u == 0x2029 || u == 0x202f || u == 0x205f || u == 0x3000
}

/// `n` copies of the character `c`.
pub open spec fn repeated(c: char, n: nat) -> Seq<char> {
    Seq::new(n, |i: int| c)
}

/// `s` moved to the right end of a column of the given width by spaces put
/// before it. A text that is wider than the column stays as it is.
pub open spec fn right_aligned(s: Seq<char>, width: nat) -> Seq<char> {
    if s.len() >= width {
        s
    } else {
        repeated(' ', (width - s.len()) as nat) + s
    }
}

/// `s` at the left end of a column of the given width, with spaces put
/// behind it. A text that is wider than the column stays as it is.
pub open spec fn left_aligned(s: Seq<char>, width: nat) -> Seq<char> {
    if s.len() >= width {
        s
    } else {
        s + repeated(' ', (width - s.len()) as nat)
    }
}

/// `s` filled up to the given width by zeros put before it.
pub open spec fn zero_filled(s: Seq<char>, width: nat) -> Seq<char> {
    if s.len() >= width {
        s
    } else {
        repeated('0', (width - s.len()) as nat) + s
    }
}

/// Appends `n` copies of `c` to `out`.
pub fn push_repeated(out: &mut Vec<char>, c: char, n: usize)
    ensures
        final(out)@ == old(out)@ + repeated(c, n as nat),
{
    let mut i: usize = 0;
    while i < n
        invariant
            i <= n,
            out@ == old(out)@ + repeated(c, i as nat),
        decreases n - i,
    {
        out.push(c);
        assert(out@ =~= old(out)@ + repeated(c, (i + 1) as nat));
        i += 1;
    }
}

/// Appends the characters of `s` to `out`.
pub fn push_all(out: &mut Vec<char>, s: &Vec<char>)
    ensures
        final(out)@ == old(out)@ + s@,
{
    let mut i: usize = 0;
    while i < s.len()
        invariant
            i <= s.len(),
            out@ == old(out)@ + s@.take(i as int),
        decreases s.len() - i,
    {
        out.push(s[i]);
        assert(s@.take(i + 1) == s@.take(i as int).push(s@[i as int]));
        i += 1;
    }
    assert(s@.take(s.len() as int) == s@);
}

/// Appends `s` to `out`, moved to the right end of a column.
pub fn push_right_aligned(out: &mut Vec<char>, s: &Vec<char>, width: usize)
    ensures
        final(out)@ == old(out)@ + right_aligned(s@, width as nat),
{
    if s.len() < width {
        push_repeated(out, ' ', width - s.len());
    }
    push_all(out, s);
    assert(final(out)@ =~= old(out)@ + right_aligned(s@, width as nat));
}

/// Appends `s` to `out`, at the left end of a column.
pub fn push_left_aligned(out: &mut Vec<char>, s: &Vec<char>, width: usize)
    ensures
        final(out)@ == old(out)@ + left_aligned(s@, width as nat),
{
    push_all(out, s);
    if s.len() < width {
        push_repeated(out, ' ', width - s.len());
    }
    assert(final(out)@ =~= old(out)@ + left_aligned(s@, width as nat));
}

/// Appends `s` to `out`, filled up with zeros before it.
pub fn push_zero_filled(out: &mut Vec<char>, s: &Vec<char>, width: usize)
    ensures
        final(out)@ == old(out)@ + zero_filled(s@, width as nat),
{
    if s.len() < width {
        push_repeated(out, '0', width - s.len());
    }
    push_all(out, s);
    assert(final(out)@ =~= old(out)@ + zero_filled(s@, width as nat));
}

/// Whether `s` holds no white space.
pub open spec fn is_word(s: Seq<char>) -> bool {
    forall|i: int| 0 <= i < s.len() ==> !is_space(#[trigger] s[i])
}

/// The word `word` as a list of words: empty where the word is empty.
pub open spec fn finished(word: Seq<char>) -> Seq<Seq<char>> {
    if word.len() > 0 {
        seq![word]
    } else {
        Seq::empty()
    }
}

/// The words of `s`, where the characters of `word` stand directly before
/// `s` and belong to its first word.
pub open spec fn words_after(s: Seq<char>, word: Seq<char>) -> Seq<Seq<char>>
    decreases s.len(),
{
    if s.len() == 0 {
        finished(word)
    } else if is_space(s[0]) {
        finished(word) + words_after(s.skip(1), Seq::empty())
    } else {
        words_after(s.skip(1), word.push(s[0]))
    }
}

/// The words of `s`: its longest runs of characters that are no white
/// space, in their order. This is what `str::split_whitespace` yields.
pub open spec fn words(s: Seq<char>) -> Seq<Seq<char>> {
    words_after(s, Seq::empty())
}

/// The texts of a list of words.
pub open spec fn word_texts(list: Seq<Vec<char>>) -> Seq<Seq<char>> {
    list.map_values(|w: Vec<char>| w@)
}

/// Splits `s` into its words.
pub fn split_words(s: &Vec<char>) -> (out: Vec<Vec<char>>)
    ensures
        word_texts(out@) == words(s@),
{
    let mut out: Vec<Vec<char>> = Vec::new();
    let mut word: Vec<char> = Vec::new();
    let mut i: usize = 0;
    assert(s@.skip(0) == s@);
    assert(word_texts(out@) =~= Seq::<Seq<char>>::empty());
    while i < s.len()
        invariant
            i <= s.len(),
            words(s@) == word_texts(out@) + words_after(s@.skip(i as int), word@),
        decreases s.len() - i,
    {
        let c = s[i];
        let ghost here = s@.skip(i as int);
        let ghost next = s@.skip(i + 1);
        let ghost done = word_texts(out@);
        let ghost w = word@;
        assert(here.skip(1) == next);
        assert(here[0] == c);
        if char_is_space(c) {
            assert(words_after(here, w) == finished(w) + words(next));
            if word.len() > 0 {
                let ghost before = out@;
                out.push(word);
                word = Vec::new();
                assert(word_texts(out@) =~= done + finished(w));
                assert(done + (finished(w) + words(next)) == (done + finished(w)) + words(next));
            } else {
                assert(w =~= Seq::<char>::empty());
                assert(finished(w) + words(next) == words(next));
            }
        } else {
            assert(words_after(here, w) == words_after(next, w.push(c)));
            word.push(c);
        }
        i += 1;
    }
    assert(s@.skip(s.len() as int) == Seq::<char>::empty());
    if word.len() > 0 {
        let ghost before = out@;
        let ghost w = word@;
        out.push(word);
        assert(word_texts(out@) =~= word_texts(before) + finished(w));
    }
    out
}

/// A stretch without white space goes to the word that is being read.
pub proof fn lemma_words_after_word(a: Seq<char>, b: Seq<char>, word: Seq<char>)
    requires
        is_word(a),
    ensures
        words_after(a + b, word) == words_after(b, word + a),
    decreases a.len(),
{
    if a.len() == 0 {
        assert(a + b == b);
        assert(word + a == word);
    } else {
        assert((a + b)[0] == a[0]);
        assert((a + b).skip(1) == a.skip(1) + b);
        assert(is_word(a.skip(1))) by {
            assert forall|i: int| 0 <= i < a.skip(1).len() implies !is_space(
                #[trigger] a.skip(1)[i],
            ) by {
                assert(a.skip(1)[i] == a[i + 1]);
            }
        }
        lemma_words_after_word(a.skip(1), b, word.push(a[0]));
        assert(word.push(a[0]) + a.skip(1) == word + a);
    }
}

/// A run of spaces ends the word that is being read and begins none.
pub proof fn lemma_words_after_spaces(n: nat, b: Seq<char>, word: Seq<char>)
    requires
        n > 0,
    ensures
        words_after(repeated(' ', n) + b, word) == finished(word) + words_after(b, Seq::empty()),
    decreases n,
{
    let s = repeated(' ', n) + b;
    assert(s[0] == ' ');
    if n == 1 {
        assert(s.skip(1) == b);
    } else {
        assert(s.skip(1) == repeated(' ', (n - 1) as nat) + b);
        lemma_words_after_spaces((n - 1) as nat, b, Seq::empty());
        assert(finished(Seq::<char>::empty()) + words_after(b, Seq::empty()) == words_after(
            b,
            Seq::empty(),
        ));
    }
}

/// The words of two texts joined by a space are the words of the first and
/// then the words of the second.
pub proof fn lemma_words_after_joined(a: Seq<char>, b: Seq<char>, word: Seq<char>)
    ensures
        words_after(a + seq![' '] + b, word) == words_after(a, word) + words(b),
    decreases a.len(),
{
    let s = a + seq![' '] + b;
    if a.len() == 0 {
        assert(s[0] == ' ');
        assert(s.skip(1) == b);
    } else {
        assert(s[0] == a[0]);
        assert(s.skip(1) == a.skip(1) + seq![' '] + b);
        if is_space(a[0]) {
            lemma_words_after_joined(a.skip(1), b, Seq::empty());
            assert(finished(word) + (words_after(a.skip(1), Seq::empty()) + words(b)) == (finished(
                word,
            ) + words_after(a.skip(1), Seq::empty())) + words(b));
        } else {
            lemma_words_after_joined(a.skip(1), b, word.push(a[0]));
        }
    }
}

/// A word with spaces before and behind it is one word.
pub proof fn lemma_words_of_padded(before: nat, w: Seq<char>, behind: nat)
    requires
        is_word(w),
        w.len() > 0,
    ensures
        words(repeated(' ', before) + w + repeated(' ', behind)) == seq![w],
{
    let tail = repeated(' ', behind);
    let empty = Seq::<char>::empty();
    assert(words_after(w + tail, empty) == seq![w]) by {
        lemma_words_after_word(w, tail, empty);
        assert(empty + w == w);
        if behind == 0 {
            assert(tail.len() == 0);
        } else {
            assert(tail == tail + empty);
            lemma_words_after_spaces(behind, empty, w);
            assert(finished(w) + words_after(empty, empty) == seq![w]);
        }
    }
    if before == 0 {
        assert(repeated(' ', before) + w + tail == w + tail);
    } else {
        assert(repeated(' ', before) + w + tail == repeated(' ', before) + (w + tail));
        lemma_words_after_spaces(before, w + tail, empty);
        assert(finished(empty) + seq![w] == seq![w]);
    }
}

/// The index of the first `c` in `s`, or the length of `s` where it holds
/// none.
pub open spec fn first_index(s: Seq<char>, c: char) -> nat
    decreases s.len(),
{
    if s.len() == 0 || s[0] == c {
        0
    } else {
        1 + first_index(s.skip(1), c)
    }
}

/// `first_index` is where the first `c` stands.
pub proof fn lemma_first_index(s: Seq<char>, c: char, i: int)
    requires
        0 <= i <= s.len(),
        forall|j: int| 0 <= j < i ==> #[trigger] s[j] != c,
        i == s.len() || s[i] == c,
    ensures
        first_index(s, c) == i,
    decreases i,
{
    if i > 0 {
        let t = s.skip(1);
        assert forall|j: int| 0 <= j < i - 1 implies #[trigger] t[j] != c by {
            assert(t[j] == s[j + 1]);
        }
        lemma_first_index(t, c, i - 1);
    }
}

/// Finds the first `c` in `s`.
pub fn find_char(s: &Vec<char>, c: char) -> (i: usize)
    ensures
        i == first_index(s@, c),
        i <= s.len(),
{
    let mut i: usize = 0;
    while i < s.len() && s[i] != c
        invariant
            i <= s.len(),
            forall|j: int| 0 <= j < i ==> #[trigger] s@[j] != c,
        decreases s.len() - i,
    {
        i += 1;
    }
    proof {
        lemma_first_index(s@, c, i as int);
    }
    i
}

/// The first `n` characters of `s`.
pub fn prefix(s: &Vec<char>, n: usize) -> (out: Vec<char>)
    requires
        n <= s.len(),
    ensures
        out@ == s@.take(n as int),
{
    let mut out: Vec<char> = Vec::new();
    let mut i: usize = 0;
    while i < n
        invariant
            i <= n <= s.len(),
            out@ == s@.take(i as int),
        decreases n - i,
    {
        out.push(s[i]);
        assert(s@.take(i + 1) == s@.take(i as int).push(s@[i as int]));
        i += 1;
    }
    out
}

/// The characters of `s` from index `n` on.
pub fn suffix(s: &Vec<char>, n: usize) -> (out: Vec<char>)
    requires
        n <= s.len(),
    ensures
        out@ == s@.skip(n as int),
{
    let mut out: Vec<char> = Vec::new();
    let mut i: usize = n;
    while i < s.len()
        invariant
            n <= i <= s.len(),
            out@ == s@.subrange(n as int, i as int),
        decreases s.len() - i,
    {
        out.push(s[i]);
        assert(s@.subrange(n as int, i + 1) == s@.subrange(n as int, i as int).push(s@[i as int]));
        i += 1;
    }
    assert(s@.subrange(n as int, s.len() as int) == s@.skip(n as int));
    out
}

} // verus!
