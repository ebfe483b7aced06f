use vstd::prelude::*;
use std::io::Write;
use crate::model::{first_index, lemma_first_index_prefix, Error, Package};
use crate::select::derefs;

verus! {

/// `text` painted green for a terminal: the escape that selects green, the
/// text, and the escape that resets the style.
pub open spec fn green(text: Seq<char>) -> Seq<char> {
    seq!['\x1b', '[', '3', '2', 'm'] + text + seq!['\x1b', '[', '0', 'm']
}

/// Relies on ansi_term's `Colour::Green.paint`, displayed: the text between
/// the escape `ESC[32m` and the reset escape `ESC[0m`.
#[verifier::external_body]
fn paint_green(text: &str) -> (r: String)
    ensures
        r@ == green(text@),
{
    ansi_term::Colour::Green.paint(text).to_string()
}

/// The text that tabwriter makes of `text`: cells separated by tabs, padded
/// so that the columns of consecutive lines line up.
pub uninterp spec fn tabulated(text: Seq<char>) -> Seq<char>;

/// Relies on tabwriter's `TabWriter` over an in-memory buffer: the text is
/// written whole, the writer is unwrapped, and its bytes read back as text.
/// What comes out depends on the text alone. Writing and flushing only
/// append to the `Vec`, which does not fail, and the output is the input's
/// cells cut at ASCII tabs and line breaks, with ASCII spaces and line breaks
/// added, so it is valid UTF-8.
#[verifier::external_body]
fn tabulate(text: &str) -> (r: Result<String, Error>)
    ensures
        r is Ok,
        r is Ok ==> r->Ok_0@ == tabulated(text@),
{
    let mut table = tabwriter::TabWriter::new(Vec::new());
    if let Err(e) = table.write_all(text.as_bytes()) {
        return Err(Error::Io(e.to_string()));
    }
    let bytes = match table.into_inner() {
        Ok(bytes) => bytes,
        Err(e) => return Err(Error::TabWriter(e.to_string())),
    };
    match String::from_utf8(bytes) {
        Ok(s) => Ok(s),
        Err(e) => Err(Error::Utf8(e.to_string())),
    }
}

/// The texts of a sequence of strings, written one after another.
pub open spec fn concat_all(parts: Seq<Seq<char>>) -> Seq<char>
    decreases parts.len(),
{
    if parts.len() == 0 {
        Seq::empty()
    } else {
        concat_all(parts.drop_last()) + parts.last()
    }
}

/// The texts of a sequence of strings, joined by a comma and a space.
pub open spec fn join_comma(parts: Seq<Seq<char>>) -> Seq<char>
    decreases parts.len(),
{
    if parts.len() == 0 {
        Seq::empty()
    } else if parts.len() == 1 {
        parts[0]
    } else {
        join_comma(parts.drop_last()) + seq![',', ' '] + parts.last()
    }
}

/// The character sequences of some strings.
pub open spec fn texts(v: Seq<String>) -> Seq<Seq<char>> {
    v.map_values(|s: String| s@)
}

fn concat_strings(parts: &Vec<String>) -> (r: String)
    ensures
        r@ == concat_all(texts(parts@)),
{
    let mut r = String::new();
    let mut i: usize = 0;
    while i < parts.len()
        invariant
            i <= parts@.len(),
            r@ == concat_all(texts(parts@).take(i as int)),
        decreases parts@.len() - i,
    {
        proof {
            assert(texts(parts@).take(i + 1).drop_last() =~= texts(parts@).take(i as int));
        }
        r.append(parts[i].as_str());
        i = i + 1;
    }
    proof {
        assert(texts(parts@).take(i as int) =~= texts(parts@));
    }
    r
}

fn join_strings(parts: &Vec<String>) -> (r: String)
    ensures
        r@ == join_comma(texts(parts@)),
{
    let mut r = String::new();
    let mut i: usize = 0;
    while i < parts.len()
        invariant
            i <= parts@.len(),
            r@ == join_comma(texts(parts@).take(i as int)),
        decreases parts@.len() - i,
    {
        proof {
            assert(texts(parts@).take(i + 1).drop_last() =~= texts(parts@).take(i as int));
        }
        if i > 0 {
            r.append(", ");
            proof {
                reveal_strlit(", ");
            }
        }
        r.append(parts[i].as_str());
        proof {
            if i == 0 {
                assert(r@ =~= texts(parts@).take(1)[0]);
            }
        }
        i = i + 1;
    }
    proof {
        assert(texts(parts@).take(i as int) =~= texts(parts@));
    }
    r
}

/// The position of the first line break of `d`, if it has one.
pub open spec fn newline_index(d: Seq<char>) -> Option<int> {
    first_index(d, |c: char| c == '\n')
}

/// The first line of `d`, without its line ending (a line feed, or a
/// carriage return and a line feed).
pub open spec fn first_line(d: Seq<char>) -> Seq<char> {
    match newline_index(d) {
        Some(k) => if k > 0 && d[k - 1] == '\r' {
            d.take(k - 1)
        } else {
            d.take(k)
        },
        None => d,
    }
}

/// Whether `d` holds a line after its first one.
pub open spec fn has_more_lines(d: Seq<char>) -> bool {
    match newline_index(d) {
        Some(k) => k + 1 < d.len(),
        None => false,
    }
}

/// A text on one line: its first line, with an ellipsis where more lines follow.
pub open spec fn one_line_of(d: Seq<char>) -> Seq<char> {
    first_line(d) + if has_more_lines(d) {
        seq!['\u{2026}']
    } else {
        Seq::empty()
    }
}

/// The one-line summary of a description: its first line, with an ellipsis
/// where more lines follow; nothing where there is no description.
pub open spec fn summary_of(description: Option<String>) -> Seq<char> {
    match description {
        Some(d) => one_line_of(d@),
        None => Seq::empty(),
    }
}

/// The one-line summary of a package description.
pub fn summary(description: &Option<String>) -> (r: String)
    ensures
        r@ == summary_of(*description),
{
    match description {
        Some(d) => one_line(d.as_str()),
        None => String::new(),
    }
}

/// The text of an optional value, on one line: nothing where it is absent.
fn optional_line(value: &Option<String>) -> (r: String)
    ensures
        r@ == one_line_of(text_of(*value)),
{
    match value {
        Some(v) => one_line(v.as_str()),
        None => {
            proof {
                assert(one_line_of(Seq::<char>::empty()) =~= Seq::<char>::empty());
            }
            String::new()
        },
    }
}

/// A text on one line: its first line, with an ellipsis where more lines follow.
fn one_line(d: &str) -> (r: String)
    ensures
        r@ == one_line_of(d@),
{
    let ghost f = |c: char| c == '\n';
    let n = d.unicode_len();
    let mut i: usize = 0;
    while i < n
        invariant
            i <= n,
            n == d@.len(),
            f == (|c: char| c == '\n'),
            first_index(d@.take(i as int), f) is None,
        ensures
            i <= n,
            first_index(d@.take(i as int), f) is None,
            i < n ==> d@[i as int] == '\n',
        decreases n - i,
    {
        if d.get_char(i) == '\n' {
            break;
        }
        proof {
            assert(d@.take(i + 1).drop_last() =~= d@.take(i as int));
        }
        i = i + 1;
    }
    proof {
        if i < n {
            assert(d@.take(i + 1).drop_last() =~= d@.take(i as int));
            assert(d@.take(i + 1).last() == d@[i as int]);
            lemma_first_index_prefix(d@, f, i + 1, n as int);
            assert(d@.take(n as int) =~= d@);
            assert(newline_index(d@) == Some(i as int));
        } else {
            assert(d@.take(i as int) =~= d@);
        }
    }
    let end = if i < n && i > 0 && d.get_char(i - 1) == '\r' {
        i - 1
    } else {
        i
    };
    let mut r = String::from_str(d.substring_char(0, end));
    proof {
        assert(d@.subrange(0, end as int) =~= d@.take(end as int));
        if i == n {
            assert(d@.take(end as int) =~= d@);
        }
    }
    if i < n && i + 1 < n {
        r.append("\u{2026}");
        proof {
            reveal_strlit("\u{2026}");
        }
    }
    proof {
        if !(i < n && i + 1 < n) {
            assert(r@ =~= r@ + Seq::<char>::empty());
        }
    }
    r
}

/// One row of a listing: the key painted green, a tab, a colon, and the value.
pub open spec fn row_of(key: Seq<char>, value: Seq<char>) -> Seq<char> {
    green(key) + seq!['\t', ':', ' '] + value + seq!['\n']
}

/// The text of an optional value: nothing where it is absent.
pub open spec fn text_of(value: Option<String>) -> Seq<char> {
    match value {
        Some(v) => v@,
        None => Seq::empty(),
    }
}

/// One row of the detailed listing.
pub fn row(key: &str, value: Option<&String>) -> (r: String)
    ensures
        r@ == row_of(key@, match value {
            Some(v) => v@,
            None => Seq::empty(),
        }),
{
    let mut r = paint_green(key);
    r.append("\t: ");
    match value {
        Some(v) => r.append(v.as_str()),
        None => {},
    }
    r.append("\n");
    proof {
        reveal_strlit("\t: ");
        reveal_strlit("\n");
        assert(r@ =~= row_of(key@, match value {
            Some(v) => v@,
            None => Seq::<char>::empty(),
        }));
    }
    r
}

/// The labels of the detailed listing, in their order.
pub open spec fn detail_labels() -> Seq<Seq<char>> {
    seq![
        "name"@,
        "descrip."@,
        "keywords"@,
        "categories"@,
        "version"@,
        "license"@,
        "homepage"@,
        "repository"@,
        "features"@,
    ]
}

/// The values of the detailed listing, one for each label.
pub open spec fn detail_values(p: Package) -> Seq<Seq<char>> {
    seq![
        p.name@,
        text_of(p.description),
        join_comma(texts(p.keywords@)),
        join_comma(texts(p.categories@)),
        p.version@,
        text_of(p.license),
        text_of(p.homepage),
        text_of(p.repository),
        join_comma(texts(p.features@)),
    ]
}

/// The rows of the detailed listing of `p`.
pub open spec fn detail_lines(p: Package) -> Seq<Seq<char>> {
    Seq::new(9, |i: int| row_of(detail_labels()[i], one_line_of(detail_values(p)[i])))
}

/// The number of line breaks in a text.
pub open spec fn count_newlines(s: Seq<char>) -> nat
    decreases s.len(),
{
    if s.len() == 0 {
        0
    } else {
        count_newlines(s.drop_last()) + if s.last() == '\n' {
            1nat
        } else {
            0nat
        }
    }
}

proof fn lemma_count_add(a: Seq<char>, b: Seq<char>)
    ensures
        count_newlines(a + b) == count_newlines(a) + count_newlines(b),
    decreases b.len(),
{
    if b.len() > 0 {
        lemma_count_add(a, b.drop_last());
        assert((a + b).drop_last() =~= a + b.drop_last());
    } else {
        assert(a + b =~= a);
    }
}

proof fn lemma_count_none(s: Seq<char>)
    requires
        forall|i: int| 0 <= i < s.len() ==> s[i] != '\n',
    ensures
        count_newlines(s) == 0,
    decreases s.len(),
{
    if s.len() > 0 {
        lemma_count_none(s.drop_last());
    }
}

proof fn lemma_one_line_has_no_break(d: Seq<char>)
    ensures
        forall|i: int| 0 <= i < one_line_of(d).len() ==> one_line_of(d)[i] != '\n',
{
    crate::model::lemma_first_index_sound(d, |c: char| c == '\n');
    let l = first_line(d);
    assert forall|i: int| 0 <= i < l.len() implies l[i] != '\n' by {
        assert(l[i] == d[i]);
    }
}

proof fn lemma_row_has_one_break(key: Seq<char>, value: Seq<char>)
    requires
        forall|i: int| 0 <= i < key.len() ==> key[i] != '\n',
        forall|i: int| 0 <= i < value.len() ==> value[i] != '\n',
    ensures
        count_newlines(row_of(key, value)) == 1,
{
    let head = green(key) + seq!['\t', ':', ' '] + value;
    assert forall|i: int| 0 <= i < head.len() implies head[i] != '\n' by {
        if i >= 5 && i < 5 + key.len() {
            assert(head[i] == key[i - 5]);
        } else if i >= 5 + key.len() + 4 + 3 {
            assert(head[i] == value[i - (5 + key.len() + 4 + 3)]);
        }
    }
    lemma_count_none(head);
    let nl = seq!['\n'];
    lemma_count_add(head, nl);
    assert(nl.drop_last() =~= Seq::<char>::empty());
    assert(nl.last() == '\n');
    assert(count_newlines(nl.drop_last()) == 0);
    assert(count_newlines(nl) == 1);
    assert(row_of(key, value) =~= head + nl);
}

proof fn lemma_concat_counts(parts: Seq<Seq<char>>)
    requires
        forall|i: int| 0 <= i < parts.len() ==> #[trigger] count_newlines(parts[i]) == 1,
    ensures
        count_newlines(concat_all(parts)) == parts.len(),
    decreases parts.len(),
{
    if parts.len() > 0 {
        lemma_concat_counts(parts.drop_last());
        lemma_count_add(concat_all(parts.drop_last()), parts.last());
    }
}

/// The detailed listing of any package holds exactly nine line breaks, one
/// at the end of each row, and ends with a line break.
pub proof fn lemma_detail_has_nine_lines(p: Package)
    ensures
        count_newlines(concat_all(detail_lines(p))) == 9,
        concat_all(detail_lines(p)).last() == '\n',
{
    reveal_strlit("name");
    reveal_strlit("descrip.");
    reveal_strlit("keywords");
    reveal_strlit("categories");
    reveal_strlit("version");
    reveal_strlit("license");
    reveal_strlit("homepage");
    reveal_strlit("repository");
    reveal_strlit("features");
    let lines = detail_lines(p);
    assert forall|i: int| 0 <= i < 9 implies #[trigger] count_newlines(lines[i]) == 1 by {
        lemma_one_line_has_no_break(detail_values(p)[i]);
        lemma_row_has_one_break(detail_labels()[i], one_line_of(detail_values(p)[i]));
    }
    lemma_concat_counts(lines);
    let last = lines[8];
    assert(last.last() == '\n');
    assert(concat_all(lines) == concat_all(lines.drop_last()) + last);
}

/// The detailed listing of a package, before its columns are aligned: nine
/// rows, each ending with the one line break it holds.
pub fn detail_text(package: &Package) -> (r: String)
    ensures
        r@ == concat_all(detail_lines(*package)),
        count_newlines(r@) == 9,
        r@.last() == '\n',
{
    let keywords = join_strings(&package.keywords);
    let categories = join_strings(&package.categories);
    let features = join_strings(&package.features);
    let name = one_line(package.name.as_str());
    let description = optional_line(&package.description);
    let keywords = one_line(keywords.as_str());
    let categories = one_line(categories.as_str());
    let version = one_line(package.version.as_str());
    let license = optional_line(&package.license);
    let homepage = optional_line(&package.homepage);
    let repository = optional_line(&package.repository);
    let features = one_line(features.as_str());
    let rows = vec![
        row("name", Some(&name)),
        row("descrip.", Some(&description)),
        row("keywords", Some(&keywords)),
        row("categories", Some(&categories)),
        row("version", Some(&version)),
        row("license", Some(&license)),
        row("homepage", Some(&homepage)),
        row("repository", Some(&repository)),
        row("features", Some(&features)),
    ];
    proof {
        assert(texts(rows@) =~= detail_lines(*package));
        lemma_detail_has_nine_lines(*package);
    }
    concat_strings(&rows)
}

/// The detailed listing of one package, its columns aligned.
pub fn display_one(package: &Package) -> (r: Result<String, Error>)
    ensures
        r is Ok,
        r is Ok ==> r->Ok_0@ == tabulated(concat_all(detail_lines(*package))),
{
    let text = detail_text(package);
    tabulate(text.as_str())
}

/// One row of the brief table: name, version and summary, separated by tabs.
pub open spec fn table_row_of(p: Package) -> Seq<char> {
    p.name@ + seq!['\t'] + p.version@ + seq!['\t'] + summary_of(p.description) + seq!['\n']
}

/// The brief table of some packages, one row each, before its columns are aligned.
pub open spec fn table_of(packages: Seq<Package>) -> Seq<char> {
    concat_all(packages.map_values(|p: Package| table_row_of(p)))
}

/// The brief table of some packages, before its columns are aligned.
pub fn table_text(packages: &Vec<&Package>) -> (r: String)
    ensures
        r@ == table_of(derefs(packages@)),
{
    let ghost rows = derefs(packages@).map_values(|p: Package| table_row_of(p));
    let mut r = String::new();
    let mut i: usize = 0;
    while i < packages.len()
        invariant
            i <= packages@.len(),
            rows == derefs(packages@).map_values(|p: Package| table_row_of(p)),
            r@ == concat_all(rows.take(i as int)),
        decreases packages@.len() - i,
    {
        let p = packages[i];
        let s = summary(&p.description);
        r.append(p.name.as_str());
        r.append("\t");
        r.append(p.version.as_str());
        r.append("\t");
        r.append(s.as_str());
        r.append("\n");
        proof {
            reveal_strlit("\t");
            reveal_strlit("\n");
            assert(rows.take(i + 1).drop_last() =~= rows.take(i as int));
            assert(rows[i as int] == table_row_of(*p));
            assert(r@ =~= concat_all(rows.take(i + 1)));
        }
        i = i + 1;
    }
    proof {
        assert(rows.take(i as int) =~= rows);
    }
    r
}

/// The detailed listing of any package has exactly nine rows, labelled
/// name, descrip., keywords, categories, version, license, homepage,
/// repository and features in that order; an absent value gives a row with
/// an empty value, never a missing row.
pub proof fn lemma_detail_has_nine_rows(p: Package)
    ensures
        detail_lines(p).len() == 9,
        detail_labels() == seq![
            "name"@,
            "descrip."@,
            "keywords"@,
            "categories"@,
            "version"@,
            "license"@,
            "homepage"@,
            "repository"@,
            "features"@,
        ],
        forall|i: int| 0 <= i < 9 ==> #[trigger] detail_lines(p)[i] == row_of(detail_labels()[i], one_line_of(detail_values(p)[i])),
        p.description is None ==> detail_lines(p)[1] == row_of("descrip."@, Seq::empty()),
        p.license is None ==> detail_lines(p)[5] == row_of("license"@, Seq::empty()),
        p.homepage is None ==> detail_lines(p)[6] == row_of("homepage"@, Seq::empty()),
        p.repository is None ==> detail_lines(p)[7] == row_of("repository"@, Seq::empty()),
{
    assert(one_line_of(Seq::<char>::empty()) =~= Seq::<char>::empty());
}

/// A description without a line break is its own summary.
pub proof fn lemma_summary_single_line(d: String)
    requires
        !d@.contains('\n'),
    ensures
        summary_of(Some(d)) == d@,
{
    let f = |c: char| c == '\n';
    crate::model::lemma_first_index_sound(d@, f);
    if newline_index(d@) is Some {
        let k = newline_index(d@)->Some_0;
        assert(d@[k] == '\n');
    }
    assert(d@ + Seq::<char>::empty() =~= d@);
}

/// A description with a line after its first is summarised by its first
/// line followed by an ellipsis.
pub proof fn lemma_summary_multi_line(d: String, k: int)
    requires
        0 <= k < d@.len() - 1,
        d@[k] == '\n',
        forall|j: int| 0 <= j < k ==> d@[j] != '\n',
    ensures
        summary_of(Some(d)) == first_line(d@) + seq!['\u{2026}'],
        first_line(d@) == if k > 0 && d@[k - 1] == '\r' { d@.take(k - 1) } else { d@.take(k) },
{
    let f = |c: char| c == '\n';
    crate::model::lemma_first_index_sound(d@, f);
    let m = newline_index(d@)->Some_0;
    assert(f(d@[k]));
    assert(m == k) by {
        if m < k {
            assert(d@[m] != '\n');
        }
        if m > k {
            assert(!f(d@[k]));
        }
    }
}

/// A package without a description has an empty summary.
pub proof fn lemma_summary_absent()
    ensures
        summary_of(None) == Seq::<char>::empty(),
{
}

/// The brief table of some packages, its columns aligned.
pub fn display_list(packages: &Vec<&Package>) -> (r: Result<String, Error>)
    ensures
        r is Ok,
        r is Ok ==> r->Ok_0@ == tabulated(table_of(derefs(packages@))),
{
    let text = table_text(packages);
    tabulate(text.as_str())
}

} // verus!
