//! The filter language and its parser.
//!
//! A filter is one or more segments written back to back:
//!
//! ```text
//! filter  := segment+
//! segment := '.' name label*
//! name    := bare | '"' text '"'        (a quoted name is not empty)
//! bare    := [A-Za-z0-9_-]+
//! label   := '{' '"' text '"' '}'
//! text    := any characters but '"'
//! ```
//!
//! No white space is allowed anywhere. A bare name and a quoted name give the
//! same `Field::name`; the labels of one segment are kept in order.
use vstd::prelude::*;

verus! {

/// One segment of a filter: an attribute or block name, and the labels that a
/// block must share (at least one of them) to match.
///
/// For the filter `.foo{"bar"}.baz` there are two segments: the name "foo"
/// with the label "bar", and the name "baz".
#[derive(Clone, Debug, PartialEq)]
pub struct Field {
    /// an attribute, block or object key name
    pub name: String,
    /// block labels
    pub labels: Vec<String>,
}

/// The mathematical value of a `Field`.
pub ghost struct FieldView {
    pub name: Seq<char>,
    pub labels: Seq<Seq<char>>,
}

pub open spec fn string_views(ls: Seq<String>) -> Seq<Seq<char>> {
    ls.map_values(|l: String| l@)
}

pub open spec fn field_views(fs: Seq<Field>) -> Seq<FieldView> {
    fs.map_values(|f: Field| f@)
}

impl View for Field {
    type V = FieldView;

    open spec fn view(&self) -> FieldView {
        FieldView { name: self.name@, labels: string_views(self.labels@) }
    }
}

impl Field {
    /// A segment that names `name` and asks for no label.
    pub fn new(name: &str) -> (r: Field)
        ensures
            r@ == (FieldView { name: name@, labels: Seq::empty() }),
    {
        let r = Field { name: name.to_owned(), labels: Vec::new() };
        assert(string_views(r.labels@) =~= Seq::empty());
        r
    }

    /// A segment that names `name` and asks for `labels`.
    pub fn labeled(name: &str, labels: &[&str]) -> (r: Field)
        ensures
            r@.name == name@,
            r@.labels == labels@.map_values(|l: &str| l@),
    {
        let mut ls: Vec<String> = Vec::new();
        let mut i: usize = 0;
        while i < labels.len()
            invariant
                i <= labels@.len(),
                string_views(ls@) =~= labels@.take(i as int).map_values(|l: &str| l@),
            decreases labels@.len() - i,
        {
            let l = labels[i].to_owned();
            proof {
                assert(string_views(ls@.push(l)) =~= string_views(ls@).push(l@));
                assert(labels@.take(i + 1) =~= labels@.take(i as int).push(labels@[i as int]));
            }
            ls.push(l);
            i += 1;
        }
        assert(labels@.take(labels@.len() as int) =~= labels@);
        Field { name: name.to_owned(), labels: ls }
    }
}

/// A filter that could not be parsed: the input and the character position
/// of the fault (the input's length where the input ended too early).
#[derive(Clone, Debug)]
pub struct FilterError {
    input: String,
    position: usize,
}

impl FilterError {
    pub closed spec fn spec_position(&self) -> int {
        self.position as int
    }

    pub closed spec fn spec_input(&self) -> Seq<char> {
        self.input@
    }

    /// The position at which parsing failed, counted in characters (not
    /// bytes) from the start of the filter; a filter is one line. The input's
    /// length means that the filter ended too early.
    pub fn position(&self) -> (r: usize)
        ensures
            r == self.spec_position(),
    {
        self.position
    }

    /// The filter that failed to parse.
    pub fn input(&self) -> (r: &str)
        ensures
            r@ == self.spec_input(),
    {
        self.input.as_str()
    }
}

pub open spec fn is_bare_char(c: char) -> bool {
    ('a' <= c && c <= 'z') || ('A' <= c && c <= 'Z') || ('0' <= c && c <= '9') || c == '_'
        || c == '-'
}

/// The number of bare-name characters from position `i` on.
pub open spec fn bare_run(s: Seq<char>, i: int) -> nat
    decreases s.len() - i,
{
    if 0 <= i < s.len() && is_bare_char(s[i]) {
        1 + bare_run(s, i + 1)
    } else {
        0
    }
}

/// The number of characters other than `"` from position `i` on.
pub open spec fn text_run(s: Seq<char>, i: int) -> nat
    decreases s.len() - i,
{
    if 0 <= i < s.len() && s[i] != '"' {
        1 + text_run(s, i + 1)
    } else {
        0
    }
}

/// The name that starts at `i`, with the number of characters it takes; or
/// the position of the fault.
pub open spec fn name_at(s: Seq<char>, i: int) -> Result<(Seq<char>, nat), int> {
    if 0 <= i < s.len() && s[i] == '"' {
        let n = text_run(s, i + 1);
        if i + 1 + n >= s.len() {
            Err(s.len() as int)
        } else if n == 0 {
            Err(i + 1)
        } else {
            Ok((s.subrange(i + 1, i + 1 + n), n + 2))
        }
    } else {
        let n = bare_run(s, i);
        if n == 0 {
            Err(i)
        } else {
            Ok((s.subrange(i, i + n), n))
        }
    }
}

/// The label clauses that start at `i`, with the number of characters they
/// take; or the position of the fault.
pub open spec fn labels_at(s: Seq<char>, i: int) -> Result<(Seq<Seq<char>>, nat), int>
    decreases s.len() - i,
{
    if 0 <= i < s.len() && s[i] == '{' {
        if !(i + 1 < s.len() && s[i + 1] == '"') {
            Err(i + 1)
        } else {
            let n = text_run(s, i + 2);
            let close = i + 2 + n;
            if close >= s.len() {
                Err(s.len() as int)
            } else if !(close + 1 < s.len() && s[close + 1] == '}') {
                Err(close + 1)
            } else {
                match labels_at(s, close + 2) {
                    Ok((ls, m)) => Ok((seq![s.subrange(i + 2, close)] + ls, n + 4 + m)),
                    Err(p) => Err(p),
                }
            }
        }
    } else {
        Ok((Seq::empty(), 0))
    }
}

/// The segments from position `i` to the end; or the position of the fault.
pub open spec fn segments_at(s: Seq<char>, i: int) -> Result<Seq<FieldView>, int>
    decreases s.len() - i,
{
    if i < 0 || i >= s.len() {
        Ok(Seq::empty())
    } else if s[i] != '.' {
        Err(i)
    } else {
        match name_at(s, i + 1) {
            Err(p) => Err(p),
            Ok((name, n)) => match labels_at(s, i + 1 + n) {
                Err(p) => Err(p),
                Ok((ls, m)) => {
                    proof {
                        lemma_bare_run_bound(s, i + 1);
                        lemma_text_run_bound(s, i + 2);
                        lemma_labels_at_bound(s, i + 1 + n);
                    }
                    match segments_at(s, i + 1 + n + m) {
                        Err(p) => Err(p),
                        Ok(rest) => Ok(seq![FieldView { name, labels: ls }] + rest),
                    }
                },
            },
        }
    }
}

pub proof fn lemma_bare_run_bound(s: Seq<char>, i: int)
    ensures
        0 <= i <= s.len() ==> i + bare_run(s, i) <= s.len(),
    decreases s.len() - i,
{
    if 0 <= i < s.len() && is_bare_char(s[i]) {
        lemma_bare_run_bound(s, i + 1);
    }
}

pub proof fn lemma_text_run_bound(s: Seq<char>, i: int)
    ensures
        0 <= i <= s.len() ==> i + text_run(s, i) <= s.len(),
    decreases s.len() - i,
{
    if 0 <= i < s.len() && s[i] != '"' {
        lemma_text_run_bound(s, i + 1);
    }
}

pub proof fn lemma_labels_at_bound(s: Seq<char>, i: int)
    ensures
        0 <= i <= s.len() ==> match labels_at(s, i) {
            Ok((_, m)) => i + m <= s.len(),
            Err(_) => true,
        },
    decreases s.len() - i,
{
    if 0 <= i < s.len() && s[i] == '{' && i + 1 < s.len() && s[i + 1] == '"' {
        lemma_text_run_bound(s, i + 2);
        let close = i + 2 + text_run(s, i + 2);
        if close + 1 < s.len() {
            lemma_labels_at_bound(s, close + 2);
        }
    }
}

/// What a filter text means: its segments, or the position of the fault. The
/// empty text is no filter.
pub open spec fn parse_spec(s: Seq<char>) -> Result<Seq<FieldView>, int> {
    if s.len() == 0 {
        Err(0)
    } else {
        segments_at(s, 0)
    }
}

fn is_bare(c: char) -> (r: bool)
    ensures
        r == is_bare_char(c),
{
    ('a' <= c && c <= 'z') || ('A' <= c && c <= 'Z') || ('0' <= c && c <= '9') || c == '_'
        || c == '-'
}

fn scan_bare(s: &str, len: usize, i: usize) -> (r: usize)
    requires
        len == s@.len(),
        i <= len,
    ensures
        r == i + bare_run(s@, i as int),
        r <= len,
{
    let mut j = i;
    while j < len && is_bare(s.get_char(j))
        invariant
            len == s@.len(),
            i <= j <= len,
            bare_run(s@, i as int) == (j - i) + bare_run(s@, j as int),
        decreases len - j,
    {
        j += 1;
    }
    j
}

fn scan_text(s: &str, len: usize, i: usize) -> (r: usize)
    requires
        len == s@.len(),
        i <= len,
    ensures
        r == i + text_run(s@, i as int),
        r <= len,
{
    let mut j = i;
    while j < len && s.get_char(j) != '"'
        invariant
            len == s@.len(),
            i <= j <= len,
            text_run(s@, i as int) == (j - i) + text_run(s@, j as int),
        decreases len - j,
    {
        j += 1;
    }
    j
}

fn parse_name(s: &str, len: usize, i: usize) -> (r: Result<(String, usize), usize>)
    requires
        len == s@.len(),
        i <= len,
    ensures
        match r {
            Ok((name, n)) => name_at(s@, i as int) == Ok::<(Seq<char>, nat), int>((name@, n as nat))
                && i + n <= len,
            Err(p) => name_at(s@, i as int) == Err::<(Seq<char>, nat), int>(p as int),
        },
{
    if i < len && s.get_char(i) == '"' {
        let e = scan_text(s, len, i + 1);
        if e >= len {
            Err(len)
        } else if e == i + 1 {
            Err(i + 1)
        } else {
            let name = s.substring_char(i + 1, e).to_owned();
            Ok((name, e + 1 - i))
        }
    } else {
        let e = scan_bare(s, len, i);
        if e == i {
            Err(i)
        } else {
            let name = s.substring_char(i, e).to_owned();
            Ok((name, e - i))
        }
    }
}

fn parse_labels(s: &str, len: usize, i: usize) -> (r: Result<(Vec<String>, usize), usize>)
    requires
        len == s@.len(),
        i <= len,
    ensures
        match r {
            Ok((ls, m)) => labels_at(s@, i as int) == Ok::<(Seq<Seq<char>>, nat), int>(
                (string_views(ls@), m as nat),
            ) && i + m <= len,
            Err(p) => labels_at(s@, i as int) == Err::<(Seq<Seq<char>>, nat), int>(p as int),
        },
{
    let mut ls: Vec<String> = Vec::new();
    let mut j = i;
    while j < len && s.get_char(j) == '{'
        invariant
            len == s@.len(),
            i <= j <= len,
            labels_at(s@, i as int) == match labels_at(s@, j as int) {
                Ok((rest, m)) => Ok::<(Seq<Seq<char>>, nat), int>(
                    (string_views(ls@) + rest, (j - i) as nat + m),
                ),
                Err(p) => Err(p),
            },
        decreases len - j,
    {
        if !(j + 1 < len && s.get_char(j + 1) == '"') {
            return Err(j + 1);
        }
        let close = scan_text(s, len, j + 2);
        if close >= len {
            return Err(len);
        }
        if !(close + 1 < len && s.get_char(close + 1) == '}') {
            return Err(close + 1);
        }
        let label = s.substring_char(j + 2, close).to_owned();
        proof {
            let old_ls = string_views(ls@);
            let l = label@;
            assert(string_views(ls@.push(label)) =~= old_ls.push(l));
            match labels_at(s@, close + 2) {
                Ok((rest, m)) => {
                    assert(old_ls + (seq![l] + rest) =~= old_ls.push(l) + rest);
                },
                Err(p) => {},
            }
        }
        ls.push(label);
        j = close + 2;
    }
    proof {
        assert(string_views(ls@) + Seq::<Seq<char>>::empty() =~= string_views(ls@));
    }
    Ok((ls, j - i))
}

/// Parses `input` into its segments (see the module documentation for the
/// syntax). A filter that parses has at least one segment.
pub fn parse_filter(input: &str) -> (r: Result<Vec<Field>, FilterError>)
    ensures
        match r {
            Ok(fields) => parse_spec(input@) == Ok::<Seq<FieldView>, int>(field_views(fields@))
                && fields@.len() > 0,
            Err(e) => parse_spec(input@) == Err::<Seq<FieldView>, int>(e.spec_position())
                && e.spec_input() == input@,
        },
{
    let len = input.unicode_len();
    if len == 0 {
        return Err(FilterError { input: input.to_owned(), position: 0 });
    }
    let mut fields: Vec<Field> = Vec::new();
    let mut i: usize = 0;
    while i < len
        invariant
            len == input@.len(),
            len > 0,
            i <= len,
            i == 0 <==> fields@.len() == 0,
            segments_at(input@, 0) == match segments_at(input@, i as int) {
                Ok(rest) => Ok::<Seq<FieldView>, int>(field_views(fields@) + rest),
                Err(p) => Err(p),
            },
        decreases len - i,
    {
        if input.get_char(i) != '.' {
            return Err(FilterError { input: input.to_owned(), position: i });
        }
        let (name, n) = match parse_name(input, len, i + 1) {
            Ok(v) => v,
            Err(p) => {
                return Err(FilterError { input: input.to_owned(), position: p });
            },
        };
        let (labels, m) = match parse_labels(input, len, i + 1 + n) {
            Ok(v) => v,
            Err(p) => {
                return Err(FilterError { input: input.to_owned(), position: p });
            },
        };
        let field = Field { name, labels };
        proof {
            let old_fs = field_views(fields@);
            let fv = field@;
            assert(field_views(fields@.push(field)) =~= old_fs.push(fv));
            match segments_at(input@, i + 1 + n + m) {
                Ok(rest) => {
                    assert(old_fs + (seq![fv] + rest) =~= old_fs.push(fv) + rest);
                },
                Err(p) => {},
            }
        }
        fields.push(field);
        i = i + 1 + n + m;
    }
    proof {
        assert(field_views(fields@) + Seq::<FieldView>::empty() =~= field_views(fields@));
    }
    Ok(fields)
}

} // verus!
