//! The table that `wsl.exe -l -v` prints: one distribution per line, with its
//! name, its state and its version, behind a star where it is the default.
use vstd::prelude::*;
use vstd::slice::slice_subrange;

use crate::state::{state_of, WslState};
use crate::text::{
    ascii_lower, ascii_lowercase, is_blank, is_white_space, is_word, law_strip_leading, lemma_line_len,
    lemma_line_len_unique, lemma_word_len, lemma_word_len_unique, line_len, lines, same_text, split_words,
    strip_cr, strip_leading, strip_leading_chars, to_chars, to_lowercase_chars, trim, trim_chars,
    trim_end, trim_start, word_len, words,
};

verus! {

/// A distribution, as the listing shows it.
#[derive(Debug)]
pub struct WslDistro {
    pub name: String,
    pub state: WslState,
    pub version: String,
    pub is_default: bool,
}

/// The contents of a [`WslDistro`].
#[verifier::ext_equal]
pub struct DistroView {
    pub name: Seq<char>,
    pub state: WslState,
    pub version: Seq<char>,
    pub is_default: bool,
}

impl View for WslDistro {
    type V = DistroView;

    open spec fn view(&self) -> DistroView {
        DistroView {
            name: self.name@,
            state: self.state,
            version: self.version@,
            is_default: self.is_default,
        }
    }
}

impl Clone for WslDistro {
    fn clone(&self) -> (copy: WslDistro)
        ensures
            copy == *self,
    {
        WslDistro {
            name: self.name.clone(),
            state: self.state,
            version: self.version.clone(),
            is_default: self.is_default,
        }
    }
}

/// The contents of a list of distributions.
pub open spec fn distro_views(distros: Seq<WslDistro>) -> Seq<DistroView> {
    distros.map_values(|d: WslDistro| d@)
}

/// The header of the listing: the words `NAME`, `STATE` and `VERSION`, in any
/// ASCII case, and nothing else.
pub open spec fn is_header(row: Seq<char>) -> bool {
    words(ascii_lowercase(row)) == seq!["name"@, "state"@, "version"@]
}

/// The distribution on one line of the listing. Blank lines, the header and
/// lines that have nothing but stars hold none.
pub open spec fn read_line(line: Seq<char>) -> Option<DistroView> {
    let row = trim(line);
    let columns = words(trim(strip_leading(row, '*')));
    if row.len() == 0 || is_header(row) || columns.len() == 0 {
        None
    } else {
        Some(
            DistroView {
                name: columns[0],
                state: if columns.len() > 1 {
                    state_of(columns[1])
                } else {
                    WslState::Unknown
                },
                version: if columns.len() > 2 {
                    columns[2]
                } else {
                    "-"@
                },
                is_default: row[0] == '*',
            },
        )
    }
}

/// The distributions on the given lines, in order.
pub open spec fn read_lines(ls: Seq<Seq<char>>) -> Seq<DistroView>
    decreases ls.len(),
{
    if ls.len() == 0 {
        Seq::empty()
    } else {
        option_seq(read_line(ls[0])) + read_lines(ls.skip(1))
    }
}

/// The distributions in the text of a listing, in order.
pub open spec fn read_list(text: Seq<char>) -> Seq<DistroView> {
    read_lines(lines(text))
}

/// One element or none.
pub open spec fn option_seq<A>(o: Option<A>) -> Seq<A> {
    match o {
        Some(a) => seq![a],
        None => Seq::empty(),
    }
}

/// Whether a row is the header of the listing.
fn row_is_header(row: &[char]) -> (r: bool)
    ensures
        r == is_header(row@),
{
    let low = to_lowercase_chars(row);
    let columns = split_words(low.as_slice());
    let ghost parts = words(low@);
    let ghost header = seq!["name"@, "state"@, "version"@];
    assert(columns@.len() == parts.len());
    assert(forall|i: int| 0 <= i < columns.len() ==> #[trigger] columns@[i]@ == parts[i]);
    if columns.len() != 3 {
        assert(parts.len() != header.len());
        return false;
    }
    let r = same_text(columns[0].as_str(), "name") && same_text(columns[1].as_str(), "state")
        && same_text(columns[2].as_str(), "version");
    proof {
        if r {
            assert(parts =~= header);
        } else if parts == header {
            assert(parts[0] == header[0] && parts[1] == header[1] && parts[2] == header[2]);
        }
    }
    r
}

/// Reads one line of the listing.
pub fn parse_line(line: &[char]) -> (distro: Option<WslDistro>)
    ensures
        match distro {
            Some(d) => read_line(line@) == Some(d@),
            None => read_line(line@) is None,
        },
{
    let row = trim_chars(line);
    if row.len() == 0 || row_is_header(row) {
        return None;
    }
    let is_default = row[0] == '*';
    let cleaned = trim_chars(strip_leading_chars(row, '*'));
    let columns = split_words(cleaned);
    let ghost parts = words(cleaned@);
    assert(columns@.len() == parts.len());
    assert(forall|i: int| 0 <= i < columns.len() ==> #[trigger] columns@[i]@ == parts[i]);
    if columns.len() == 0 {
        return None;
    }
    let name = columns[0].clone();
    let state = if columns.len() > 1 {
        WslState::from_wsl(columns[1].as_str())
    } else {
        WslState::Unknown
    };
    let version = if columns.len() > 2 {
        columns[2].clone()
    } else {
        "-".to_owned()
    };
    Some(WslDistro { name, state, version, is_default })
}

/// Reads the listing.
pub fn parse_wsl_list(text: &str) -> (distros: Vec<WslDistro>)
    ensures
        distro_views(distros@) == read_list(text@),
{
    let chars = to_chars(text);
    let v = chars.as_slice();
    let mut out: Vec<WslDistro> = Vec::new();
    let mut i: usize = 0;
    assert(v@.skip(0) =~= v@);
    assert(distro_views(out@) + read_list(v@) =~= read_list(v@));
    while i < v.len()
        invariant
            i <= v.len(),
            distro_views(out@) + read_list(v@.skip(i as int)) == read_list(v@),
        decreases v.len() - i,
    {
        let ghost rest = v@.skip(i as int);
        let ghost before = distro_views(out@);
        let mut j: usize = i;
        while j < v.len() && v[j] != '\n'
            invariant
                i <= j <= v.len(),
                forall|k: int| i <= k < j ==> #[trigger] v@[k] != '\n',
            decreases v.len() - j,
        {
            j += 1;
        }
        proof {
            lemma_line_len_unique(rest, (j - i) as nat);
        }
        let end: usize = if i < j && j < v.len() && v[j - 1] == '\r' {
            j - 1
        } else {
            j
        };
        let line = slice_subrange(v, i, end);
        let next: usize = if j < v.len() {
            j + 1
        } else {
            j
        };
        proof {
            if j < v.len() {
                assert(line@ =~= strip_cr(rest.take(j - i)));
                assert(rest.skip(j - i + 1) =~= v@.skip(next as int));
                assert(lines(rest)[0] =~= line@);
                assert(lines(rest).skip(1) =~= lines(v@.skip(next as int)));
            } else {
                assert(line@ =~= rest);
                assert(lines(rest).skip(1) =~= lines(v@.skip(next as int)));
            }
        }
        let distro = parse_line(line);
        proof {
            assert(read_list(rest) == option_seq(read_line(line@)) + read_list(
                v@.skip(next as int),
            ));
            assert(before + read_list(rest) =~= (before + option_seq(read_line(line@)))
                + read_list(v@.skip(next as int)));
        }
        match distro {
            Some(d) => {
                out.push(d);
                assert(distro_views(out@) =~= before + option_seq(read_line(line@)));
            },
            None => {
                assert(before + option_seq(read_line(line@)) =~= before);
            },
        }
        i = next;
    }
    assert(read_list(v@.skip(i as int)) =~= Seq::<DistroView>::empty());
    assert(distro_views(out@) + read_list(v@.skip(i as int)) =~= distro_views(out@));
    out
}

proof fn lemma_trim_start_blank(a: Seq<char>, s: Seq<char>)
    requires
        is_blank(a),
    ensures
        trim_start(a + s) == trim_start(s),
    decreases a.len(),
{
    if a.len() == 0 {
        assert(a + s =~= s);
    } else {
        assert((a + s)[0] == a[0]);
        assert((a + s).skip(1) =~= a.skip(1) + s);
        lemma_trim_start_blank(a.skip(1), s);
    }
}

proof fn lemma_trim_end_blank(s: Seq<char>, a: Seq<char>)
    requires
        is_blank(a),
    ensures
        trim_end(s + a) == trim_end(s),
    decreases a.len(),
{
    if a.len() == 0 {
        assert(s + a =~= s);
    } else {
        assert((s + a).last() == a.last());
        assert((s + a).drop_last() =~= s + a.drop_last());
        lemma_trim_end_blank(s, a.drop_last());
    }
}

/// Trimming takes exactly the white space around a text that has none at its ends.
proof fn lemma_trim_exact(a: Seq<char>, s: Seq<char>, b: Seq<char>)
    requires
        is_blank(a),
        is_blank(b),
        s.len() > 0,
        !is_white_space(s[0]),
        !is_white_space(s.last()),
    ensures
        trim(a + s + b) == s,
{
    assert(a + s + b =~= a + (s + b));
    lemma_trim_start_blank(a, s + b);
    assert((s + b)[0] == s[0]);
    lemma_trim_end_blank(s, b);
}

proof fn lemma_trim_keeps(s: Seq<char>, c: char)
    requires
        is_white_space(c),
    ensures
        trim(s.push(c)) == trim(s),
    decreases s.len(),
{
    if s.len() > 0 && is_white_space(s[0]) {
        assert(s.push(c)[0] == s[0]);
        assert(s.push(c).skip(1) =~= s.skip(1).push(c));
        lemma_trim_keeps(s.skip(1), c);
    } else if s.len() == 0 {
        assert(s.push(c).skip(1) =~= Seq::<char>::empty());
        assert(s =~= Seq::<char>::empty());
        assert(trim_start(s.push(c)) == trim_start(s.push(c).skip(1)));
    } else {
        assert(s.push(c)[0] == s[0]);
        assert(s.push(c).drop_last() =~= s);
    }
}

/// A word in front of white space is the first word of a text.
proof fn lemma_first_word(w: Seq<char>, gap: Seq<char>, rest: Seq<char>)
    requires
        is_word(w),
        is_blank(gap),
        gap.len() > 0,
    ensures
        words(w + gap + rest) == seq![w] + words(rest),
{
    let s = w + gap + rest;
    assert forall|i: int| 0 <= i < w.len() implies !is_white_space(#[trigger] s[i]) by {
        assert(s[i] == w[i]);
    }
    assert(s[w.len() as int] == gap[0]);
    lemma_word_len_unique(s, w.len());
    assert(s.take(w.len() as int) =~= w);
    assert(s.skip(w.len() as int) =~= gap + rest);
    lemma_words_skip_blank(gap, rest);
}

proof fn lemma_words_skip_blank(gap: Seq<char>, rest: Seq<char>)
    requires
        is_blank(gap),
    ensures
        words(gap + rest) == words(rest),
    decreases gap.len(),
{
    if gap.len() == 0 {
        assert(gap + rest =~= rest);
    } else {
        assert((gap + rest)[0] == gap[0]);
        assert((gap + rest).skip(1) =~= gap.skip(1) + rest);
        lemma_words_skip_blank(gap.skip(1), rest);
    }
}

proof fn lemma_single_word(w: Seq<char>)
    requires
        is_word(w),
    ensures
        words(w) == seq![w],
{
    lemma_word_len_unique(w, w.len());
    assert(w.take(w.len() as int) =~= w);
    assert(w.skip(w.len() as int) =~= Seq::<char>::empty());
    assert(words(Seq::<char>::empty()) =~= Seq::<Seq<char>>::empty());
    assert(words(w) =~= seq![w]);
}

proof fn lemma_words_are_words(s: Seq<char>)
    ensures
        forall|i: int| 0 <= i < words(s).len() ==> is_word(#[trigger] words(s)[i]),
    decreases s.len(),
{
    lemma_word_len(s);
    let n = word_len(s) as int;
    if s.len() > 0 && n == 0 {
        lemma_words_are_words(s.skip(1));
        assert(words(s) == words(s.skip(1)));
    } else if s.len() > 0 {
        lemma_words_are_words(s.skip(n));
        assert forall|i: int| 0 <= i < words(s).len() implies is_word(#[trigger] words(s)[i]) by {
            if i == 0 {
                assert(words(s)[0] == s.take(n));
            } else {
                assert(words(s)[i] == words(s.skip(n))[i - 1]);
            }
        }
    }
}

/// A line that shows a distribution: white space, a star and white space where
/// it is the default, then its name, state and version as words with white
/// space between them, and white space at the end.
pub struct Row {
    pub lead: Seq<char>,
    pub star: Option<Seq<char>>,
    pub name: Seq<char>,
    pub gap1: Seq<char>,
    pub state: Seq<char>,
    pub gap2: Seq<char>,
    pub version: Seq<char>,
    pub tail: Seq<char>,
}

impl Row {
    /// The star and the white space behind it, where the row has one.
    pub open spec fn mark(self) -> Seq<char> {
        star_mark(self.star)
    }

    /// The characters of the line.
    pub open spec fn text(self) -> Seq<char> {
        self.lead + self.mark() + self.name + self.gap1 + self.state + self.gap2 + self.version
            + self.tail
    }

    /// The distribution that the line shows.
    pub open spec fn distro(self) -> DistroView {
        DistroView {
            name: self.name,
            state: state_of(self.state),
            version: self.version,
            is_default: self.star is Some,
        }
    }

    /// The columns are those of the header.
    pub open spec fn has_header_columns(self) -> bool {
        &&& ascii_lowercase(self.name) == "name"@
        &&& ascii_lowercase(self.state) == "state"@
        &&& ascii_lowercase(self.version) == "version"@
    }

    /// The columns are words with white space between them.
    pub open spec fn wf(self) -> bool {
        &&& is_blank(self.lead)
        &&& self.star is Some ==> is_blank(self.star->0)
        &&& is_word(self.name)
        &&& is_blank(self.gap1) && self.gap1.len() > 0
        &&& is_word(self.state)
        &&& is_blank(self.gap2) && self.gap2.len() > 0
        &&& is_word(self.version)
        &&& is_blank(self.tail)
    }
}

proof fn lemma_lowercase(a: Seq<char>, b: Seq<char>)
    ensures
        ascii_lowercase(a + b) == ascii_lowercase(a) + ascii_lowercase(b),
        is_blank(a) ==> is_blank(ascii_lowercase(a)),
        is_word(a) ==> is_word(ascii_lowercase(a)),
{
    assert(ascii_lowercase(a + b) =~= ascii_lowercase(a) + ascii_lowercase(b));
    let low = ascii_lowercase(a);
    assert forall|i: int| 0 <= i < a.len() implies is_white_space(#[trigger] low[i])
        == is_white_space(a[i]) by {
        lemma_lower_white_space(a[i]);
    }
}

proof fn lemma_lower_white_space(c: char)
    ensures
        is_white_space(ascii_lower(c)) == is_white_space(c),
{
}

/// Three words with white space between them are the words of a text.
proof fn lemma_three_words(
    a: Seq<char>,
    gap1: Seq<char>,
    b: Seq<char>,
    gap2: Seq<char>,
    c: Seq<char>,
)
    requires
        is_word(a) && is_word(b) && is_word(c),
        is_blank(gap1) && gap1.len() > 0,
        is_blank(gap2) && gap2.len() > 0,
    ensures
        words(a + gap1 + (b + gap2 + c)) == seq![a, b, c],
{
    lemma_first_word(a, gap1, b + gap2 + c);
    lemma_first_word(b, gap2, c);
    lemma_single_word(c);
    assert(words(a + gap1 + (b + gap2 + c)) =~= seq![a, b, c]);
}

/// Without a star, only the header's own columns make a header.
proof fn lemma_columns_header(row: Row)
    requires
        row.wf(),
    ensures
        is_header(row.name + row.gap1 + (row.state + row.gap2 + row.version))
            == row.has_header_columns(),
{
    let rest = row.state + row.gap2 + row.version;
    let (n, g, s) = (
        ascii_lowercase(row.name),
        ascii_lowercase(row.gap1),
        ascii_lowercase(row.state),
    );
    let (h, v) = (ascii_lowercase(row.gap2), ascii_lowercase(row.version));
    lemma_lowercase(row.name + row.gap1, rest);
    lemma_lowercase(row.name, row.gap1);
    lemma_lowercase(row.gap1, rest);
    lemma_lowercase(row.state + row.gap2, row.version);
    lemma_lowercase(row.state, row.gap2);
    lemma_lowercase(row.gap2, row.version);
    lemma_lowercase(row.version, Seq::empty());
    lemma_three_words(n, g, s, h, v);
    let header = seq!["name"@, "state"@, "version"@];
    if seq![n, s, v] == header {
        assert(seq![n, s, v][0] == header[0]);
        assert(seq![n, s, v][1] == header[1]);
        assert(seq![n, s, v][2] == header[2]);
    }
}

/// A row with a star is no header.
proof fn lemma_star_is_no_header(row: Seq<char>)
    requires
        row.len() > 0,
        row[0] == '*',
    ensures
        !is_header(row),
{
    let low = ascii_lowercase(row);
    assert(low[0] == '*');
    assert(!is_white_space('*'));
    lemma_word_len(low);
    assert(word_len(low) > 0);
    assert(words(low)[0] == low.take(word_len(low) as int));
    assert(words(low)[0][0] == '*');
    reveal_strlit("name");
    if is_header(row) {
        assert(words(low)[0] == "name"@);
        assert("name"@[0] == 'n');
    }
}

/// A line that shows a distribution is read as that distribution, unless its
/// name begins with a star, or it is not the default and its columns are those
/// of the header.
pub proof fn law_row_is_read(row: Row)
    requires
        row.wf(),
        row.name[0] != '*',
        row.star is None ==> !row.has_header_columns(),
    ensures
        read_line(row.text()) == Some(row.distro()),
{
    let line = row.text();
    let columns = row.name + row.gap1 + (row.state + row.gap2 + row.version);
    let body = row.mark() + columns;
    assert(line =~= row.lead + body + row.tail);
    assert(columns[0] == row.name[0]);
    assert(columns.last() == row.version.last());
    assert(body.last() == row.version.last());
    assert(!is_white_space('*'));
    lemma_trim_exact(row.lead, body, row.tail);
    assert(trim(line) == body);
    match row.star {
        Some(gap) => {
            assert(body[0] == '*');
            lemma_star_is_no_header(body);
            assert(body.skip(1) =~= gap + columns);
            assert((gap + columns)[0] != '*') by {
                if gap.len() > 0 {
                    assert((gap + columns)[0] == gap[0]);
                    assert(is_white_space(gap[0]));
                }
            }
            assert(strip_leading(body, '*') == strip_leading(body.skip(1), '*'));
            assert(strip_leading(body, '*') == gap + columns);
            assert(gap + columns =~= gap + columns + Seq::<char>::empty());
            lemma_trim_exact(gap, columns, Seq::<char>::empty());
        },
        None => {
            assert(body =~= columns);
            lemma_columns_header(row);
            assert(strip_leading(body, '*') == body);
            assert(columns =~= Seq::<char>::empty() + columns + Seq::<char>::empty());
            lemma_trim_exact(Seq::<char>::empty(), columns, Seq::<char>::empty());
        },
    }
    lemma_three_words(row.name, row.gap1, row.state, row.gap2, row.version);
}

/// The header holds no distribution, however it is spaced.
pub proof fn law_header_is_left_out(row: Row)
    requires
        row.wf(),
        row.star is None,
        row.has_header_columns(),
    ensures
        read_line(row.text()) is None,
{
    let columns = row.name + row.gap1 + (row.state + row.gap2 + row.version);
    assert(row.text() =~= row.lead + columns + row.tail);
    assert(columns[0] == row.name[0]);
    assert(columns.last() == row.version.last());
    lemma_trim_exact(row.lead, columns, row.tail);
    lemma_columns_header(row);
}

/// The two parts of a listing are read one after the other.
pub proof fn law_parts_are_read_in_turn(a: Seq<char>, b: Seq<char>)
    ensures
        read_list(a + seq!['\n'] + b) == read_list(a) + read_list(b),
    decreases a.len(),
{
    let s = a + seq!['\n'] + b;
    lemma_line_len(a);
    let n = line_len(a) as int;
    assert(s[a.len() as int] == '\n');
    assert forall|i: int| 0 <= i < n implies #[trigger] s[i] != '\n' by {
        assert(s[i] == a[i]);
    }
    if n < a.len() {
        assert(s[n] == a[n]);
    }
    lemma_line_len_unique(s, n as nat);
    assert(s.take(n) =~= a.take(n));
    let rest = lines(s.skip(n + 1));
    assert(lines(s)[0] =~= strip_cr(a.take(n)));
    assert(lines(s).skip(1) =~= rest);
    if n < a.len() {
        assert(s.skip(n + 1) =~= a.skip(n + 1) + seq!['\n'] + b);
        law_parts_are_read_in_turn(a.skip(n + 1), b);
        assert(lines(a)[0] =~= strip_cr(a.take(n)));
        assert(lines(a).skip(1) =~= lines(a.skip(n + 1)));
        assert(read_list(s) =~= read_list(a) + read_list(b));
    } else {
        assert(a.take(n) =~= a);
        assert(s.skip(n + 1) =~= b);
        lemma_read_line_cr(a);
        if a.len() == 0 {
            assert(read_line(a) is None);
            assert(read_list(a) =~= Seq::<DistroView>::empty());
        } else {
            assert(lines(a) =~= seq![a]);
            assert(lines(a).skip(1) =~= Seq::<Seq<char>>::empty());
            assert(read_lines(lines(a).skip(1)) =~= Seq::<DistroView>::empty());
            assert(read_lines(lines(a)) =~= option_seq(read_line(a)));
        }
        assert(read_list(s) =~= read_list(a) + read_list(b));
    }
}

/// The text of a listing with the given lines, each ended as Windows does.
pub open spec fn listing_text(ls: Seq<Seq<char>>) -> Seq<char>
    decreases ls.len(),
{
    if ls.len() == 0 {
        Seq::empty()
    } else {
        ls[0] + seq!['\r', '\n'] + listing_text(ls.skip(1))
    }
}

/// A listing is read line by line: every line that shows a distribution gives
/// that distribution, and no other line gives one.
pub proof fn law_listing_is_read_line_by_line(ls: Seq<Seq<char>>)
    requires
        forall|i: int| 0 <= i < ls.len() ==> !(#[trigger] ls[i]).contains('\n'),
    ensures
        read_list(listing_text(ls)) == read_lines(ls),
    decreases ls.len(),
{
    if ls.len() == 0 {
        assert(read_list(listing_text(ls)) =~= Seq::<DistroView>::empty());
    } else {
        let a = ls[0].push('\r');
        let b = listing_text(ls.skip(1));
        assert(listing_text(ls) =~= a + seq!['\n'] + b);
        law_parts_are_read_in_turn(a, b);
        assert forall|i: int| 0 <= i < ls.skip(1).len() implies !(#[trigger] ls.skip(
            1,
        )[i]).contains('\n') by {
            assert(ls.skip(1)[i] == ls[i + 1]);
        }
        law_listing_is_read_line_by_line(ls.skip(1));
        assert forall|i: int| 0 <= i < a.len() implies #[trigger] a[i] != '\n' by {
            if i < ls[0].len() {
                assert(a[i] == ls[0][i]);
                assert(!ls[0].contains('\n'));
            }
        }
        lemma_line_len_unique(a, a.len());
        assert(lines(a) =~= seq![a]);
        assert(lines(a).skip(1) =~= Seq::<Seq<char>>::empty());
        assert(read_lines(lines(a).skip(1)) =~= Seq::<DistroView>::empty());
        assert(read_list(a) =~= option_seq(read_line(a)));
        assert(strip_cr(a) =~= ls[0]);
        lemma_read_line_cr(a);
    }
}

/// Every distribution in a listing is read, in order and as its row shows it:
/// the listing has a header and then one row for each.
pub proof fn law_every_distro_is_listed(header: Row, rows: Seq<Row>)
    requires
        header.wf(),
        header.star is None,
        header.has_header_columns(),
        !header.text().contains('\n'),
        forall|i: int|
            0 <= i < rows.len() ==> {
                let row = #[trigger] rows[i];
                &&& row.wf()
                &&& row.name[0] != '*'
                &&& row.star is None ==> !row.has_header_columns()
                &&& !row.text().contains('\n')
            },
    ensures
        read_list(listing_text(seq![header.text()] + rows.map_values(|r: Row| r.text())))
            == rows.map_values(|r: Row| r.distro()),
{
    let ls = rows.map_values(|r: Row| r.text());
    let all = seq![header.text()] + ls;
    assert forall|i: int| 0 <= i < all.len() implies !(#[trigger] all[i]).contains('\n') by {
        if i > 0 {
            assert(all[i] == rows[i - 1].text());
        }
    }
    law_listing_is_read_line_by_line(all);
    law_header_is_left_out(header);
    assert(all.skip(1) =~= ls);
    assert(read_lines(all) =~= read_lines(ls));
    lemma_rows_are_read(rows);
}

proof fn lemma_rows_are_read(rows: Seq<Row>)
    requires
        forall|i: int|
            0 <= i < rows.len() ==> {
                let row = #[trigger] rows[i];
                &&& row.wf()
                &&& row.name[0] != '*'
                &&& row.star is None ==> !row.has_header_columns()
            },
    ensures
        read_lines(rows.map_values(|r: Row| r.text())) == rows.map_values(|r: Row| r.distro()),
    decreases rows.len(),
{
    let ls = rows.map_values(|r: Row| r.text());
    let out = rows.map_values(|r: Row| r.distro());
    if rows.len() > 0 {
        let rest = rows.skip(1);
        assert forall|i: int| 0 <= i < rest.len() implies {
            let row = #[trigger] rest[i];
            &&& row.wf()
            &&& row.name[0] != '*'
            &&& row.star is None ==> !row.has_header_columns()
        } by {
            assert(rest[i] == rows[i + 1]);
        }
        lemma_rows_are_read(rest);
        law_row_is_read(rows[0]);
        assert(ls[0] == rows[0].text());
        assert(ls.skip(1) =~= rest.map_values(|r: Row| r.text()));
        assert(out =~= seq![rows[0].distro()] + rest.map_values(|r: Row| r.distro()));
    } else {
        assert(read_lines(ls) =~= out);
    }
}

proof fn lemma_read_line_cr(line: Seq<char>)
    ensures
        read_line(strip_cr(line)) == read_line(line),
{
    if line.len() > 0 && line.last() == '\r' {
        assert(line =~= line.drop_last().push('\r'));
        lemma_trim_keeps(line.drop_last(), '\r');
    }
}

/// Every distribution that is read has a name and a version, both of them words.
pub proof fn law_names_are_words(text: Seq<char>)
    ensures
        forall|i: int|
            0 <= i < read_list(text).len() ==> is_word((#[trigger] read_list(text)[i]).name)
                && is_word(read_list(text)[i].version),
{
    lemma_names_are_words(lines(text));
}

proof fn lemma_names_are_words(ls: Seq<Seq<char>>)
    ensures
        forall|i: int|
            0 <= i < read_lines(ls).len() ==> is_word((#[trigger] read_lines(ls)[i]).name)
                && is_word(read_lines(ls)[i].version),
    decreases ls.len(),
{
    if ls.len() > 0 {
        lemma_names_are_words(ls.skip(1));
        lemma_words_are_words(trim(strip_leading(trim(ls[0]), '*')));
        reveal_strlit("-");
        let first = option_seq(read_line(ls[0]));
        assert forall|i: int| 0 <= i < read_lines(ls).len() implies is_word(
            (#[trigger] read_lines(ls)[i]).name,
        ) && is_word(read_lines(ls)[i].version) by {
            if i < first.len() {
                assert(read_lines(ls)[i] == first[i]);
            } else {
                assert(read_lines(ls)[i] == read_lines(ls.skip(1))[i - first.len()]);
            }
        }
    }
}

/// A listing shows no more distributions than it has lines.
pub proof fn law_one_distro_per_line(text: Seq<char>)
    ensures
        read_list(text).len() <= lines(text).len(),
{
    lemma_one_distro_per_line(lines(text));
}

proof fn lemma_one_distro_per_line(ls: Seq<Seq<char>>)
    ensures
        read_lines(ls).len() <= ls.len(),
    decreases ls.len(),
{
    if ls.len() > 0 {
        lemma_one_distro_per_line(ls.skip(1));
    }
}

/// The words of a text are those in front of a gap of white space and then those
/// behind it; a word by itself is the only one, and white space has none.
pub proof fn law_words(a: Seq<char>, gap: Seq<char>, b: Seq<char>, w: Seq<char>)
    requires
        is_blank(gap),
        gap.len() > 0,
    ensures
        words(a + gap + b) == words(a) + words(b),
        is_word(w) ==> words(w) == seq![w],
        words(gap) == Seq::<Seq<char>>::empty(),
        forall|i: int| 0 <= i < words(a).len() ==> is_word(#[trigger] words(a)[i]),
{
    lemma_words_in_parts(a, gap, b);
    lemma_words_are_words(a);
    if is_word(w) {
        lemma_single_word(w);
    }
    lemma_words_skip_blank(gap, Seq::empty());
    assert(gap + Seq::<char>::empty() =~= gap);
}

proof fn lemma_words_in_parts(a: Seq<char>, gap: Seq<char>, b: Seq<char>)
    requires
        is_blank(gap),
        gap.len() > 0,
    ensures
        words(a + gap + b) == words(a) + words(b),
    decreases a.len(),
{
    let s = a + gap + b;
    lemma_word_len(a);
    let n = word_len(a) as int;
    if a.len() == 0 {
        assert(s =~= gap + b);
        lemma_words_skip_blank(gap, b);
        assert(words(a) + words(b) =~= words(b));
    } else {
        assert forall|i: int| 0 <= i < n implies !is_white_space(#[trigger] s[i]) by {
            assert(s[i] == a[i]);
        }
        if n < a.len() {
            assert(s[n] == a[n]);
        } else {
            assert(s[n] == gap[0]);
        }
        lemma_word_len_unique(s, n as nat);
        if n == 0 {
            assert(s.skip(1) =~= a.skip(1) + gap + b);
            lemma_words_in_parts(a.skip(1), gap, b);
        } else {
            assert(s.skip(n) =~= a.skip(n) + gap + b);
            assert(s.take(n) =~= a.take(n));
            lemma_words_in_parts(a.skip(n), gap, b);
            assert(words(s) =~= words(a) + words(b));
        }
    }
}

proof fn lemma_trim_around(a: Seq<char>, s: Seq<char>, b: Seq<char>)
    requires
        is_blank(a),
        is_blank(b),
    ensures
        trim(a + s + b) == trim(s),
    decreases b.len(),
{
    if b.len() == 0 {
        assert(a + s + b =~= a + s);
        lemma_trim_start_blank(a, s);
    } else {
        let c = b.last();
        assert(a + s + b =~= (a + s + b.drop_last()).push(c));
        lemma_trim_keeps(a + s + b.drop_last(), c);
        lemma_trim_around(a, s, b.drop_last());
    }
}

/// White space around a line does not matter.
pub proof fn law_indentation_does_not_matter(a: Seq<char>, line: Seq<char>, b: Seq<char>)
    requires
        is_blank(a),
        is_blank(b),
    ensures
        read_line(a + line + b) == read_line(line),
{
    lemma_trim_around(a, line, b);
}

/// A line of nothing but white space holds no distribution, nor does one of
/// nothing but stars.
pub proof fn law_empty_lines(line: Seq<char>)
    requires
        is_blank(line) || forall|i: int| 0 <= i < line.len() ==> #[trigger] line[i] == '*',
    ensures
        read_line(line) is None,
{
    let none = Seq::<char>::empty();
    if is_blank(line) {
        assert(line + none + none =~= line);
        lemma_trim_around(line, none, none);
    } else {
        assert(!is_white_space('*'));
        let i = choose|i: int| 0 <= i < line.len() && !is_white_space(#[trigger] line[i]);
        assert(line[0] == '*' && line[line.len() - 1] == '*');
        assert(none + line + none =~= line);
        lemma_trim_exact(none, line, none);
        let n = law_strip_leading(line, '*');
        if n < line.len() {
            assert(line[n as int] == '*');
        }
        assert(line.skip(n as int) =~= none);
    }
}

/// The front of a row: a star and white space where it is the default.
pub open spec fn star_mark(star: Option<Seq<char>>) -> Seq<char> {
    match star {
        Some(gap) => seq!['*'] + gap,
        None => Seq::empty(),
    }
}

proof fn lemma_body_is_read(star: Option<Seq<char>>, columns: Seq<char>)
    requires
        star is Some ==> is_blank(star->0),
        columns.len() > 0,
        !is_white_space(columns[0]),
        !is_white_space(columns.last()),
        columns[0] != '*',
        star is None ==> !is_header(columns),
    ensures
        ({
            let body = star_mark(star) + columns;
            &&& trim(body) == body
            &&& !is_header(body)
            &&& body.len() > 0
            &&& (body[0] == '*') == (star is Some)
            &&& trim(strip_leading(body, '*')) == columns
        }),
{
    let none = Seq::<char>::empty();
    let body = star_mark(star) + columns;
    assert(!is_white_space('*'));
    assert(body.last() == columns.last());
    assert(none + body + none =~= body);
    lemma_trim_exact(none, body, none);
    match star {
        Some(gap) => {
            assert(body[0] == '*');
            lemma_star_is_no_header(body);
            assert(body.skip(1) =~= gap + columns);
            assert((gap + columns)[0] != '*') by {
                if gap.len() > 0 {
                    assert((gap + columns)[0] == gap[0]);
                    assert(is_white_space(gap[0]));
                }
            }
            assert(strip_leading(body, '*') == strip_leading(body.skip(1), '*'));
            assert(gap + columns =~= gap + columns + none);
            lemma_trim_exact(gap, columns, none);
        },
        None => {
            assert(body =~= columns);
            assert(none + columns + none =~= columns);
            lemma_trim_exact(none, columns, none);
        },
    }
}

/// A row that ends early is read as far as it goes: without a state the state is
/// unknown, and without a version a dash stands for it.
pub proof fn law_short_rows(
    star: Option<Seq<char>>,
    name: Seq<char>,
    gap: Seq<char>,
    state: Seq<char>,
)
    requires
        star is Some ==> is_blank(star->0),
        is_word(name),
        name[0] != '*',
        is_blank(gap) && gap.len() > 0,
        is_word(state),
    ensures
        read_line(star_mark(star) + name) == Some(
            DistroView {
                name,
                state: WslState::Unknown,
                version: "-"@,
                is_default: star is Some,
            },
        ),
        read_line(star_mark(star) + (name + gap + state)) == Some(
            DistroView { name, state: state_of(state), version: "-"@, is_default: star is Some },
        ),
{
    let header = seq!["name"@, "state"@, "version"@];
    let both = name + gap + state;
    lemma_single_word(name);
    lemma_lowercase(name, gap);
    lemma_lowercase(name + gap, state);
    lemma_lowercase(gap, state);
    lemma_lowercase(state, gap);
    lemma_single_word(ascii_lowercase(name));
    lemma_first_word(ascii_lowercase(name), ascii_lowercase(gap), ascii_lowercase(state));
    lemma_single_word(ascii_lowercase(state));
    assert(words(ascii_lowercase(name)).len() != header.len());
    assert(words(ascii_lowercase(both)).len() != header.len());
    lemma_first_word(name, gap, state);
    lemma_single_word(state);
    assert(both[0] == name[0] && both.last() == state.last());
    lemma_body_is_read(star, name);
    lemma_body_is_read(star, both);
}

/// What stands behind the version of a row does not matter.
pub proof fn law_extra_columns_do_not_matter(row: Row, gap: Seq<char>, extra: Seq<char>)
    requires
        row.wf(),
        row.name[0] != '*',
        is_blank(gap) && gap.len() > 0,
        extra.len() > 0,
        !is_white_space(extra[0]),
        !is_white_space(extra.last()),
    ensures
        read_line(
            star_mark(row.star) + (row.name + row.gap1 + (row.state + row.gap2 + (row.version + gap
                + extra))),
        ) == Some(row.distro()),
{
    let behind = row.version + gap + extra;
    let rest = row.state + row.gap2 + behind;
    let columns = row.name + row.gap1 + rest;
    lemma_first_word(row.name, row.gap1, rest);
    lemma_first_word(row.state, row.gap2, behind);
    lemma_first_word(row.version, gap, extra);
    assert(words(columns).len() >= 3);
    assert(columns[0] == row.name[0]);
    assert(columns.last() == extra.last());
    lemma_lowercase(row.name + row.gap1, rest);
    lemma_lowercase(row.name, row.gap1);
    lemma_lowercase(row.gap1, rest);
    lemma_lowercase(row.state + row.gap2, behind);
    lemma_lowercase(row.state, row.gap2);
    lemma_lowercase(row.gap2, behind);
    lemma_lowercase(row.version + gap, extra);
    lemma_lowercase(row.version, gap);
    lemma_lowercase(gap, extra);
    let low = ascii_lowercase(extra);
    lemma_first_word(
        ascii_lowercase(row.name),
        ascii_lowercase(row.gap1),
        ascii_lowercase(rest),
    );
    lemma_first_word(
        ascii_lowercase(row.state),
        ascii_lowercase(row.gap2),
        ascii_lowercase(behind),
    );
    lemma_first_word(ascii_lowercase(row.version), ascii_lowercase(gap), low);
    lemma_lower_white_space(extra[0]);
    assert(low[0] == ascii_lower(extra[0]));
    lemma_word_len(low);
    assert(word_len(low) > 0);
    assert(words(low).len() > 0);
    assert(words(ascii_lowercase(columns)).len() > 3);
    assert(seq!["name"@, "state"@, "version"@].len() == 3);
    lemma_body_is_read(row.star, columns);
    assert(words(columns)[0] == row.name);
    assert(words(columns)[1] == row.state);
    assert(words(columns)[2] == row.version);
}

/// More stars mark the default as one does.
pub proof fn law_more_stars_do_not_matter(row: Seq<char>)
    requires
        row.len() > 0,
        row[0] == '*',
        !is_white_space(row.last()),
    ensures
        read_line(seq!['*'] + row) == read_line(row),
{
    let none = Seq::<char>::empty();
    let more = seq!['*'] + row;
    assert(!is_white_space('*'));
    assert(more.last() == row.last());
    assert(none + row + none =~= row);
    assert(none + more + none =~= more);
    lemma_trim_exact(none, row, none);
    lemma_trim_exact(none, more, none);
    lemma_star_is_no_header(row);
    lemma_star_is_no_header(more);
    assert(more.skip(1) =~= row);
    assert(strip_leading(more, '*') == strip_leading(more.skip(1), '*'));
}

/// Lines are read one by one, in order: each gives what it holds by itself.
pub proof fn law_lines_are_read_one_by_one(ls: Seq<Seq<char>>, line: Seq<char>)
    ensures
        read_lines(ls.push(line)) == match read_line(line) {
            Some(d) => read_lines(ls).push(d),
            None => read_lines(ls),
        },
        read_lines(Seq::empty()) == Seq::<DistroView>::empty(),
    decreases ls.len(),
{
    let all = ls.push(line);
    let none = Seq::<Seq<char>>::empty();
    assert(read_lines(none) =~= Seq::<DistroView>::empty());
    if ls.len() == 0 {
        assert(all.skip(1) =~= none);
        assert(read_lines(all) =~= option_seq(read_line(line)));
        assert(read_lines(ls) =~= Seq::<DistroView>::empty());
    } else {
        law_lines_are_read_one_by_one(ls.skip(1), line);
        assert(all.skip(1) =~= ls.skip(1).push(line));
        assert(all[0] == ls[0]);
    }
    match read_line(line) {
        Some(d) => {
            assert(read_lines(all) =~= read_lines(ls).push(d));
        },
        None => {
            assert(read_lines(all) =~= read_lines(ls));
        },
    }
}

/// The contents of a distribution are those of its fields.
pub proof fn law_distro_contents(d: WslDistro)
    ensures
        d@.name == d.name@,
        d@.state == d.state,
        d@.version == d.version@,
        d@.is_default == d.is_default,
{
}

} // verus!
