//! Character-level text handling: white space, trimming, lines, words and
//! ASCII case, on sequences of characters.
use vstd::prelude::*;
use vstd::slice::slice_subrange;

verus! {

/// `char::is_whitespace` tells whether a character has the Unicode property
/// `White_Space`; [`is_white_space`] lists the characters that have it.
pub assume_specification[ char::is_whitespace ](c: char) -> (r: bool)
    ensures
        r == is_white_space(c),
;

/// `String::push` appends one character to the end of a string.
pub assume_specification[ String::push ](s: &mut String, c: char)
    ensures
        final(s)@ == old(s)@.push(c),
;

/// The characters with the Unicode property `White_Space`.
pub open spec fn is_white_space(c: char) -> bool {
    let v = c as u32;
    ||| 0x9 <= v <= 0xD
    ||| v == 0x20
    ||| v == 0x85
    ||| v == 0xA0
    ||| v == 0x1680
    ||| 0x2000 <= v <= 0x200A
    ||| v == 0x2028
    ||| v == 0x2029
    ||| v == 0x202F
    ||| v == 0x205F
    ||| v == 0x3000
}

/// Nothing but white space.
pub open spec fn is_blank(s: Seq<char>) -> bool {
    forall|i: int| 0 <= i < s.len() ==> is_white_space(#[trigger] s[i])
}

/// Not empty, and free of white space.
pub open spec fn is_word(s: Seq<char>) -> bool {
    &&& s.len() > 0
    &&& forall|i: int| 0 <= i < s.len() ==> !is_white_space(#[trigger] s[i])
}

/// `s` without the white space at its front.
pub open spec fn trim_start(s: Seq<char>) -> Seq<char>
    decreases s.len(),
{
    if s.len() > 0 && is_white_space(s[0]) {
        trim_start(s.skip(1))
    } else {
        s
    }
}

/// `s` without the white space at its end.
pub open spec fn trim_end(s: Seq<char>) -> Seq<char>
    decreases s.len(),
{
    if s.len() > 0 && is_white_space(s.last()) {
        trim_end(s.drop_last())
    } else {
        s
    }
}

/// `s` without the white space at either side.
pub open spec fn trim(s: Seq<char>) -> Seq<char> {
    trim_end(trim_start(s))
}

/// `s` without the occurrences of `c` at its front.
pub open spec fn strip_leading(s: Seq<char>, c: char) -> Seq<char>
    decreases s.len(),
{
    if s.len() > 0 && s[0] == c {
        strip_leading(s.skip(1), c)
    } else {
        s
    }
}

/// The length of the longest front part of `s` that has no white space.
pub open spec fn word_len(s: Seq<char>) -> nat
    decreases s.len(),
{
    if s.len() == 0 || is_white_space(s[0]) {
        0
    } else {
        1 + word_len(s.skip(1))
    }
}

/// The maximal pieces of `s` that have no white space, in order.
pub open spec fn words(s: Seq<char>) -> Seq<Seq<char>>
    decreases s.len(),
{
    let n = word_len(s) as int;
    if s.len() == 0 {
        Seq::empty()
    } else if n == 0 {
        words(s.skip(1))
    } else {
        proof {
            lemma_word_len(s);
        }
        seq![s.take(n)] + words(s.skip(n))
    }
}

/// The number of characters in front of the first line feed of `s`; its
/// length where it has none.
pub open spec fn line_len(s: Seq<char>) -> nat
    decreases s.len(),
{
    if s.len() == 0 || s[0] == '\n' {
        0
    } else {
        1 + line_len(s.skip(1))
    }
}

/// A line without the carriage return that stood in front of its line feed.
pub open spec fn strip_cr(s: Seq<char>) -> Seq<char> {
    if s.len() > 0 && s.last() == '\r' {
        s.drop_last()
    } else {
        s
    }
}

/// The lines of a text. A line ends with a line feed, or a carriage return
/// and a line feed; neither belongs to it. The last line need not end so.
pub open spec fn lines(s: Seq<char>) -> Seq<Seq<char>>
    decreases s.len(),
{
    let n = line_len(s) as int;
    if s.len() == 0 {
        Seq::empty()
    } else if n >= s.len() {
        seq![s]
    } else {
        seq![strip_cr(s.take(n))] + lines(s.skip(n + 1))
    }
}

/// An ASCII capital as its small letter, any other character as it is.
pub open spec fn ascii_lower(c: char) -> char {
    if 'A' <= c <= 'Z' {
        ((c as u32 + 32) as u32) as char
    } else {
        c
    }
}

/// `s` with its ASCII capitals as small letters.
pub open spec fn ascii_lowercase(s: Seq<char>) -> Seq<char> {
    s.map_values(|c: char| ascii_lower(c))
}

/// The characters of `s` other than NUL.
pub open spec fn without_nul(s: Seq<char>) -> Seq<char> {
    s.filter(|c: char| c != '\0')
}

/// The decimal digits of `n`.
pub open spec fn decimal(n: nat) -> Seq<char>
    decreases n,
{
    if n < 10 {
        seq![digit(n)]
    } else {
        decimal(n / 10).push(digit(n % 10))
    }
}

/// The character that stands for one decimal digit.
pub open spec fn digit(n: nat) -> char {
    (('0' as u32 + n) as u32) as char
}

/// The first word ends at white space, or at the end.
pub proof fn lemma_word_len(s: Seq<char>)
    ensures
        word_len(s) <= s.len(),
        forall|i: int| 0 <= i < word_len(s) ==> !is_white_space(#[trigger] s[i]),
        word_len(s) < s.len() ==> is_white_space(s[word_len(s) as int]),
    decreases s.len(),
{
    if s.len() > 0 && !is_white_space(s[0]) {
        lemma_word_len(s.skip(1));
        assert forall|i: int| 0 <= i < word_len(s) implies !is_white_space(#[trigger] s[i]) by {
            if i > 0 {
                assert(s[i] == s.skip(1)[i - 1]);
            }
        }
    }
}

/// The length of the first word, by where it ends.
pub proof fn lemma_word_len_unique(s: Seq<char>, n: nat)
    requires
        n <= s.len(),
        forall|i: int| 0 <= i < n ==> !is_white_space(#[trigger] s[i]),
        n < s.len() ==> is_white_space(s[n as int]),
    ensures
        word_len(s) == n,
{
    lemma_word_len(s);
    if word_len(s) < n {
        assert(!is_white_space(s[word_len(s) as int]));
    }
}

/// The first line ends at a line feed, or at the end.
pub proof fn lemma_line_len(s: Seq<char>)
    ensures
        line_len(s) <= s.len(),
        forall|i: int| 0 <= i < line_len(s) ==> #[trigger] s[i] != '\n',
        line_len(s) < s.len() ==> s[line_len(s) as int] == '\n',
    decreases s.len(),
{
    if s.len() > 0 && s[0] != '\n' {
        lemma_line_len(s.skip(1));
        assert forall|i: int| 0 <= i < line_len(s) implies #[trigger] s[i] != '\n' by {
            if i > 0 {
                assert(s[i] == s.skip(1)[i - 1]);
            }
        }
    }
}

/// The length of the first line, by where it ends.
pub proof fn lemma_line_len_unique(s: Seq<char>, n: nat)
    requires
        n <= s.len(),
        forall|i: int| 0 <= i < n ==> #[trigger] s[i] != '\n',
        n < s.len() ==> s[n as int] == '\n',
    ensures
        line_len(s) == n,
{
    lemma_line_len(s);
    if line_len(s) < n {
        assert(s[line_len(s) as int] != '\n');
    }
}

/// The characters of a string.
pub fn to_chars(s: &str) -> (v: Vec<char>)
    ensures
        v@ == s@,
{
    let mut v: Vec<char> = Vec::new();
    for c in it: s.chars()
        invariant
            v@ == it.seq().take(it.index()),
            it.seq() == s@,
    {
        v.push(c);
    }
    v
}

/// The string with the given characters.
pub fn from_chars(v: &[char]) -> (s: String)
    ensures
        s@ == v@,
{
    let mut s = String::new();
    let mut i: usize = 0;
    while i < v.len()
        invariant
            i <= v.len(),
            s@ == v@.take(i as int),
        decreases v.len() - i,
    {
        s.push(v[i]);
        i += 1;
        assert(v@.take(i as int) =~= v@.take(i - 1).push(v@[i - 1]));
    }
    assert(v@.take(v@.len() as int) =~= v@);
    s
}

/// Whether two strings have the same characters.
pub fn same_text(a: &str, b: &str) -> (r: bool)
    ensures
        r == (a@ == b@),
{
    a.to_owned() == b.to_owned()
}

/// `v` without the white space at its front.
pub fn trim_start_chars(v: &[char]) -> (r: &[char])
    ensures
        r@ == trim_start(v@),
{
    let mut i: usize = 0;
    assert(v@.skip(0) =~= v@);
    while i < v.len() && v[i].is_whitespace()
        invariant
            i <= v.len(),
            trim_start(v@.skip(i as int)) == trim_start(v@),
        decreases v.len() - i,
    {
        assert(v@.skip(i as int).skip(1) =~= v@.skip(i + 1));
        i += 1;
    }
    let r = slice_subrange(v, i, v.len());
    assert(r@ =~= v@.skip(i as int));
    r
}

/// `v` without the white space at its end.
pub fn trim_end_chars(v: &[char]) -> (r: &[char])
    ensures
        r@ == trim_end(v@),
{
    let mut n: usize = v.len();
    assert(v@.take(n as int) =~= v@);
    while n > 0 && v[n - 1].is_whitespace()
        invariant
            n <= v.len(),
            trim_end(v@.take(n as int)) == trim_end(v@),
        decreases n,
    {
        assert(v@.take(n as int).drop_last() =~= v@.take(n - 1));
        n -= 1;
    }
    let r = slice_subrange(v, 0, n);
    assert(r@ =~= v@.take(n as int));
    r
}

/// `v` without the white space at either side.
pub fn trim_chars(v: &[char]) -> (r: &[char])
    ensures
        r@ == trim(v@),
{
    trim_end_chars(trim_start_chars(v))
}

/// `v` without the occurrences of `c` at its front.
pub fn strip_leading_chars(v: &[char], c: char) -> (r: &[char])
    ensures
        r@ == strip_leading(v@, c),
{
    let mut i: usize = 0;
    assert(v@.skip(0) =~= v@);
    while i < v.len() && v[i] == c
        invariant
            i <= v.len(),
            strip_leading(v@.skip(i as int), c) == strip_leading(v@, c),
        decreases v.len() - i,
    {
        assert(v@.skip(i as int).skip(1) =~= v@.skip(i + 1));
        i += 1;
    }
    let r = slice_subrange(v, i, v.len());
    assert(r@ =~= v@.skip(i as int));
    r
}

/// The maximal pieces of `v` that have no white space, in order.
pub fn split_words(v: &[char]) -> (r: Vec<String>)
    ensures
        r@.map_values(|w: String| w@) == words(v@),
{
    let mut out: Vec<String> = Vec::new();
    let mut i: usize = 0;
    assert(v@.skip(0) =~= v@);
    assert(out@.map_values(|w: String| w@) + words(v@) =~= words(v@));
    while i < v.len()
        invariant
            i <= v.len(),
            out@.map_values(|w: String| w@) + words(v@.skip(i as int)) == words(v@),
        decreases v.len() - i,
    {
        let ghost rest = v@.skip(i as int);
        let ghost before = out@.map_values(|w: String| w@);
        if v[i].is_whitespace() {
            assert(rest[0] == v@[i as int]);
            assert(rest.skip(1) =~= v@.skip(i + 1));
            i += 1;
        } else {
            let mut j: usize = i;
            while j < v.len() && !v[j].is_whitespace()
                invariant
                    i <= j <= v.len(),
                    forall|k: int| i <= k < j ==> !is_white_space(#[trigger] v@[k]),
                decreases v.len() - j,
            {
                j += 1;
            }
            proof {
                assert(rest[0] == v@[i as int]);
                lemma_word_len_unique(rest, (j - i) as nat);
                assert(rest.take(j - i) =~= v@.subrange(i as int, j as int));
                assert(rest.skip(j - i) =~= v@.skip(j as int));
            }
            let word = from_chars(slice_subrange(v, i, j));
            out.push(word);
            proof {
                assert(out@.map_values(|w: String| w@) =~= before.push(word@));
                assert(before.push(word@) + words(v@.skip(j as int)) =~= before + (seq![word@]
                    + words(v@.skip(j as int))));
            }
            i = j;
        }
    }
    assert(words(v@.skip(i as int)) =~= Seq::<Seq<char>>::empty());
    assert(out@.map_values(|w: String| w@) + words(v@.skip(i as int)) =~= out@.map_values(
        |w: String| w@,
    ));
    out
}

/// `v` with its ASCII capitals as small letters.
pub fn to_lowercase_chars(v: &[char]) -> (r: Vec<char>)
    ensures
        r@ == ascii_lowercase(v@),
{
    let mut out: Vec<char> = Vec::new();
    let mut i: usize = 0;
    while i < v.len()
        invariant
            i <= v.len(),
            out@ == ascii_lowercase(v@.take(i as int)),
        decreases v.len() - i,
    {
        let c = v[i];
        let low = if 'A' <= c && c <= 'Z' {
            (c as u8 + 32) as char
        } else {
            c
        };
        out.push(low);
        i += 1;
        assert(ascii_lowercase(v@.take(i as int)) =~= ascii_lowercase(v@.take(i - 1)).push(
            ascii_lower(v@[i - 1]),
        ));
    }
    assert(v@.take(v@.len() as int) =~= v@);
    out
}

/// Whether `v` is nothing but white space.
pub fn all_white_space(v: &[char]) -> (r: bool)
    ensures
        r == is_blank(v@),
{
    let mut i: usize = 0;
    while i < v.len()
        invariant
            i <= v.len(),
            forall|k: int| 0 <= k < i ==> is_white_space(#[trigger] v@[k]),
        decreases v.len() - i,
    {
        if !v[i].is_whitespace() {
            return false;
        }
        i += 1;
    }
    true
}

/// `text` with its NUL characters taken out.
pub fn strip_nul(text: &str) -> (s: String)
    ensures
        s@ == without_nul(text@),
{
    let v = to_chars(text);
    let mut s = String::new();
    let mut i: usize = 0;
    proof {
        reveal(Seq::filter);
    }
    while i < v.len()
        invariant
            i <= v.len(),
            s@ == without_nul(v@.take(i as int)),
        decreases v.len() - i,
    {
        proof {
            reveal(Seq::filter);
            assert(v@.take(i + 1).drop_last() =~= v@.take(i as int));
        }
        if v[i] != '\0' {
            s.push(v[i]);
        }
        i += 1;
    }
    assert(v@.take(v@.len() as int) =~= v@);
    s
}

/// The decimal digits of a number.
pub fn decimal_text(n: usize) -> (s: String)
    ensures
        s@ == decimal(n as nat),
    decreases n,
{
    let d = (48u8 + (n % 10) as u8) as char;
    let mut s = if n < 10 {
        String::new()
    } else {
        decimal_text(n / 10)
    };
    s.push(d);
    assert(n < 10 ==> s@ =~= seq![d]);
    s
}

/// The text `a` followed by `b`.
pub fn join2(a: &str, b: &str) -> (s: String)
    ensures
        s@ == a@ + b@,
{
    let mut s = a.to_owned();
    s.append(b);
    s
}

/// The texts `a`, `b` and `c` one after the other.
pub fn join3(a: &str, b: &str, c: &str) -> (s: String)
    ensures
        s@ == a@ + b@ + c@,
{
    let mut s = join2(a, b);
    s.append(c);
    s
}

/// The texts `a`, `b`, `c` and `d` one after the other.
pub fn join4(a: &str, b: &str, c: &str, d: &str) -> (s: String)
    ensures
        s@ == a@ + b@ + c@ + d@,
{
    let mut s = join3(a, b, c);
    s.append(d);
    s
}

/// Trimming takes white space off the two sides of a text and nothing else, and
/// takes all of it.
pub proof fn law_trim(s: Seq<char>) -> (sides: (Seq<char>, Seq<char>))
    ensures
        s == sides.0 + trim(s) + sides.1,
        is_blank(sides.0),
        is_blank(sides.1),
        trim(s).len() > 0 ==> !is_white_space(trim(s)[0]) && !is_white_space(trim(s).last()),
{
    let front = lemma_trim_start(s);
    let t = trim_start(s);
    let back = lemma_trim_end(t);
    assert(s =~= front + trim(s) + back);
    if trim(s).len() > 0 {
        assert(t[0] == trim(s)[0]);
    }
    (front, back)
}

proof fn lemma_trim_start(s: Seq<char>) -> (front: Seq<char>)
    ensures
        s == front + trim_start(s),
        is_blank(front),
        trim_start(s).len() > 0 ==> !is_white_space(trim_start(s)[0]),
    decreases s.len(),
{
    if s.len() > 0 && is_white_space(s[0]) {
        let rest = lemma_trim_start(s.skip(1));
        let front = seq![s[0]] + rest;
        assert(s =~= seq![s[0]] + s.skip(1));
        assert(s =~= front + trim_start(s));
        front
    } else {
        assert(s =~= Seq::<char>::empty() + s);
        Seq::empty()
    }
}

proof fn lemma_trim_end(s: Seq<char>) -> (back: Seq<char>)
    ensures
        s == trim_end(s) + back,
        is_blank(back),
        trim_end(s).len() > 0 ==> !is_white_space(trim_end(s).last()),
    decreases s.len(),
{
    if s.len() > 0 && is_white_space(s.last()) {
        let rest = lemma_trim_end(s.drop_last());
        let back = rest.push(s.last());
        assert(s =~= s.drop_last().push(s.last()));
        assert(s =~= trim_end(s) + back);
        back
    } else {
        assert(s =~= s + Seq::<char>::empty());
        Seq::empty()
    }
}

/// Stripping takes the leading occurrences of a character and nothing else, and
/// takes all of them.
pub proof fn law_strip_leading(s: Seq<char>, c: char) -> (n: nat)
    ensures
        n <= s.len(),
        strip_leading(s, c) == s.skip(n as int),
        forall|i: int| 0 <= i < n ==> #[trigger] s[i] == c,
        n < s.len() ==> s[n as int] != c,
    decreases s.len(),
{
    if s.len() > 0 && s[0] == c {
        let rest = s.skip(1);
        let n = law_strip_leading(rest, c);
        assert forall|i: int| 0 <= i < n + 1 implies #[trigger] s[i] == c by {
            if i > 0 {
                assert(s[i] == rest[i - 1]);
            }
        }
        assert(rest.skip(n as int) =~= s.skip((n + 1) as int));
        n + 1
    } else {
        assert(s.skip(0) =~= s);
        0
    }
}

/// ASCII capitals become the letters 32 places on; no other character changes,
/// nor does the length.
pub proof fn law_ascii_lowercase(s: Seq<char>, i: int)
    requires
        0 <= i < s.len(),
    ensures
        ascii_lowercase(s).len() == s.len(),
        'A' <= s[i] <= 'Z' ==> ascii_lowercase(s)[i] as u32 == s[i] as u32 + 32,
        !('A' <= s[i] <= 'Z') ==> ascii_lowercase(s)[i] == s[i],
{
}

/// NUL characters go and all others stay, in order.
pub proof fn law_without_nul(a: Seq<char>, b: Seq<char>, c: char)
    ensures
        without_nul(a + b) == without_nul(a) + without_nul(b),
        without_nul(a.push('\0')) == without_nul(a),
        c != '\0' ==> without_nul(a.push(c)) == without_nul(a).push(c),
        without_nul(Seq::empty()) == Seq::<char>::empty(),
{
    reveal(Seq::filter);
    let keep = |c: char| c != '\0';
    Seq::filter_distributes_over_add(a, b, keep);
    assert(a.push('\0').drop_last() =~= a);
    assert(a.push(c).drop_last() =~= a);
}

/// The number that decimal digits stand for.
pub open spec fn number_of(s: Seq<char>) -> int
    decreases s.len(),
{
    if s.len() == 0 {
        0
    } else {
        10 * number_of(s.drop_last()) + (s.last() as u32 - '0' as u32)
    }
}

/// A number is read back from its digits, of which none is put in front in vain.
pub proof fn law_decimal_is_read_back(n: nat)
    ensures
        number_of(decimal(n)) == n,
        forall|i: int| 0 <= i < decimal(n).len() ==> '0' <= #[trigger] decimal(n)[i] <= '9',
        decimal(n).len() > 0,
        n > 0 ==> decimal(n)[0] != '0',
        n == 0 ==> decimal(n).len() == 1,
    decreases n,
{
    lemma_digit(n % 10);
    if n >= 10 {
        let front = decimal(n / 10);
        law_decimal_is_read_back(n / 10);
        assert(decimal(n).drop_last() =~= front);
        assert(decimal(n)[0] == front[0]);
        assert forall|i: int| 0 <= i < decimal(n).len() implies '0' <= #[trigger] decimal(n)[i]
            <= '9' by {
            if i < front.len() {
                assert(decimal(n)[i] == front[i]);
            }
        }
    } else {
        assert(n % 10 == n);
        assert(decimal(n).drop_last() =~= Seq::<char>::empty());
        assert(number_of(Seq::<char>::empty()) == 0);
    }
}

proof fn lemma_digit(n: nat)
    requires
        n < 10,
    ensures
        digit(n) as u32 == '0' as u32 + n,
        '0' <= digit(n) <= '9',
{
}

/// A line ends at its line feed, and a carriage return in front of that does not
/// belong to it; what follows is read on its own.
pub proof fn law_lines_end_at_line_feeds(a: Seq<char>, b: Seq<char>)
    requires
        !a.contains('\n'),
    ensures
        lines(a + seq!['\r', '\n'] + b) == seq![a] + lines(b),
        a.len() == 0 || a.last() != '\r' ==> lines(a + seq!['\n'] + b) == seq![a] + lines(b),
        a.len() > 0 ==> lines(a) == seq![a],
        lines(Seq::empty()) == Seq::<Seq<char>>::empty(),
{
    assert forall|i: int| 0 <= i < a.len() implies #[trigger] a[i] != '\n' by {
        assert(a.contains(a[i]));
    }
    lemma_line_len_unique(a, a.len());
    let s = a + seq!['\r', '\n'] + b;
    let n = a.len() as int;
    assert(s[n] == '\r' && s[n + 1] == '\n');
    assert forall|i: int| 0 <= i < n + 1 implies #[trigger] s[i] != '\n' by {
        if i < n {
            assert(s[i] == a[i]);
        }
    }
    lemma_line_len_unique(s, (n + 1) as nat);
    assert(s.take(n + 1) =~= a.push('\r'));
    assert(a.push('\r').drop_last() =~= a);
    assert(s.skip(n + 2) =~= b);
    let t = a + seq!['\n'] + b;
    assert(t[n] == '\n');
    assert forall|i: int| 0 <= i < n implies #[trigger] t[i] != '\n' by {
        assert(t[i] == a[i]);
    }
    lemma_line_len_unique(t, n as nat);
    assert(t.take(n) =~= a);
    assert(t.skip(n + 1) =~= b);
}

/// A text is blank exactly where trimming leaves nothing of it; of two texts one
/// after the other, where both are. A text is a word where it is not empty and no
/// part of it is white space.
pub proof fn law_blank(a: Seq<char>, b: Seq<char>, c: char)
    ensures
        is_blank(a) <==> trim(a).len() == 0,
        is_blank(a + b) <==> is_blank(a) && is_blank(b),
        is_blank(seq![c]) <==> is_white_space(c),
        is_word(seq![c]) <==> !is_white_space(c),
        is_word(a) && is_word(b) ==> is_word(a + b),
        is_word(a + seq![c] + b) ==> !is_white_space(c),
{
    let s = a + b;
    if is_blank(s) {
        assert forall|i: int| 0 <= i < a.len() implies is_white_space(#[trigger] a[i]) by {
            assert(s[i] == a[i]);
        }
        assert forall|i: int| 0 <= i < b.len() implies is_white_space(#[trigger] b[i]) by {
            assert(s[a.len() + i] == b[i]);
        }
    }
    assert(seq![c][0] == c);
    let sides = law_trim(a);
    if is_blank(a) {
        let t = trim(a);
        if t.len() > 0 {
            assert(a[sides.0.len() as int] == t[0]);
        }
    } else if trim(a).len() == 0 {
        assert(a =~= sides.0 + sides.1);
    }
    assert((a + seq![c] + b)[a.len() as int] == c);
}

} // verus!
