//! Parsing and formatting of a single todo.txt task line.
//!
//! The grammar of a line, applied left to right with every segment optional
//! except the description:
//!
//! - leading whitespace is skipped;
//! - a done marker: the literal `x` followed by whitespace;
//! - a priority: a single uppercase letter in parentheses, `(A)`, followed
//!   by whitespace;
//! - up to two dates of the shape `YYYY-MM-DD` (syntactic only, no calendar
//!   validation), each followed by whitespace;
//! - the rest of the line is the description, possibly empty.
//!
//! A lone date is a creation date; only when two dates are present is the
//! first a completion date.  The grammar always matches, so parsing is a
//! total function.

use crate::scan::{
    digit_char, is_digit, is_space, is_upper, lemma_space_run_end, lemma_space_run_single,
    skip_spaces, space_char, space_run_end, upper_char,
};
use vstd::prelude::*;

verus! {

/// The mathematical model of a task line: the same five fields as
/// [`TodoEntry`], with text as sequences of characters.
#[verifier::ext_equal]
pub struct EntryModel {
    pub done: bool,
    pub priority: Option<char>,
    pub completion_date: Option<Seq<char>>,
    pub creation_date: Option<Seq<char>>,
    pub description: Seq<char>,
}

/// One task line: optional structured prefix fields and a description.
#[derive(Debug)]
pub struct TodoEntry {
    pub done: bool,
    pub priority: Option<char>,
    pub completion_date: Option<String>,
    pub creation_date: Option<String>,
    pub description: String,
}

impl View for TodoEntry {
    type V = EntryModel;

    open spec fn view(&self) -> EntryModel {
        EntryModel {
            done: self.done,
            priority: self.priority,
            completion_date: match self.completion_date {
                Some(d) => Some(d@),
                None => None,
            },
            creation_date: match self.creation_date {
                Some(d) => Some(d@),
                None => None,
            },
            description: self.description@,
        }
    }
}

impl PartialEq for TodoEntry {
    fn eq(&self, other: &TodoEntry) -> (r: bool) {
        let pri_eq = match (self.priority, other.priority) {
            (Some(a), Some(b)) => a == b,
            (None, None) => true,
            _ => false,
        };
        let completion_eq = match (&self.completion_date, &other.completion_date) {
            (Some(a), Some(b)) => *a == *b,
            (None, None) => true,
            _ => false,
        };
        let creation_eq = match (&self.creation_date, &other.creation_date) {
            (Some(a), Some(b)) => *a == *b,
            (None, None) => true,
            _ => false,
        };
        self.done == other.done && pri_eq && completion_eq && creation_eq
            && self.description == other.description
    }
}

impl vstd::std_specs::cmp::PartialEqSpecImpl for TodoEntry {
    open spec fn obeys_eq_spec() -> bool {
        true
    }

    open spec fn eq_spec(&self, other: &TodoEntry) -> bool {
        self@ == other@
    }
}

/// A date is ten characters: four digits, a hyphen, two digits, a hyphen,
/// two digits.
pub open spec fn is_date(d: Seq<char>) -> bool {
    &&& d.len() == 10
    &&& d[4] == '-'
    &&& d[7] == '-'
    &&& forall|k: int| 0 <= k < 10 && k != 4 && k != 7 ==> is_digit(d[k])
}

/// The done marker matches at `i`: an `x` followed by at least one space.
pub open spec fn done_token_at(s: Seq<char>, i: int) -> bool {
    &&& 0 <= i
    &&& i + 1 < s.len()
    &&& s[i] == 'x'
    &&& is_space(s[i + 1])
}

/// A priority marker matches at `i`: `(`, an uppercase letter, `)`,
/// followed by at least one space.
pub open spec fn priority_token_at(s: Seq<char>, i: int) -> bool {
    &&& 0 <= i
    &&& i + 3 < s.len()
    &&& s[i] == '('
    &&& is_upper(s[i + 1])
    &&& s[i + 2] == ')'
    &&& is_space(s[i + 3])
}

/// A date matches at `i`: ten date-shaped characters followed by at least
/// one space.
pub open spec fn date_token_at(s: Seq<char>, i: int) -> bool {
    &&& 0 <= i
    &&& i + 10 < s.len()
    &&& is_date(s.subrange(i, i + 10))
    &&& is_space(s[i + 10])
}

/// How the one or two matched dates fill the two date fields: a lone date
/// is a creation date, never a completion date; only when both slots
/// matched is the first a completion date.
pub open spec fn assign_dates(first: Option<Seq<char>>, second: Option<Seq<char>>) -> (
    Option<Seq<char>>,
    Option<Seq<char>>,
) {
    match first {
        Some(f) => match second {
            Some(sd) => (Some(f), Some(sd)),
            None => (None, Some(f)),
        },
        None => (None, None),
    }
}

/// What parsing a line yields, segment by segment of the grammar.
pub open spec fn parse_spec(s: Seq<char>) -> EntryModel {
    let i0 = space_run_end(s, 0);
    let done = done_token_at(s, i0);
    let i1 = if done {
        space_run_end(s, i0 + 1)
    } else {
        i0
    };
    let pri = if priority_token_at(s, i1) {
        Some(s[i1 + 1])
    } else {
        None
    };
    let i2 = if pri is Some {
        space_run_end(s, i1 + 3)
    } else {
        i1
    };
    let d1 = if date_token_at(s, i2) {
        Some(s.subrange(i2, i2 + 10))
    } else {
        None
    };
    let i3 = if d1 is Some {
        space_run_end(s, i2 + 10)
    } else {
        i2
    };
    let d2 = if date_token_at(s, i3) {
        Some(s.subrange(i3, i3 + 10))
    } else {
        None
    };
    let i4 = if d2 is Some {
        space_run_end(s, i3 + 10)
    } else {
        i3
    };
    let dates = assign_dates(d1, d2);
    EntryModel {
        done,
        priority: pri,
        completion_date: dates.0,
        creation_date: dates.1,
        description: s.subrange(i4, s.len() as int),
    }
}

/// The serialized form of a present done marker.
pub open spec fn done_seg(done: bool) -> Seq<char> {
    if done {
        seq!['x', ' ']
    } else {
        Seq::<char>::empty()
    }
}

/// The serialized form of a present priority.
pub open spec fn priority_seg(p: Option<char>) -> Seq<char> {
    match p {
        Some(c) => seq!['(', c, ')', ' '],
        None => Seq::<char>::empty(),
    }
}

/// The serialized form of a present date.
pub open spec fn date_seg(d: Option<Seq<char>>) -> Seq<char> {
    match d {
        Some(t) => t.push(' '),
        None => Seq::<char>::empty(),
    }
}

/// The canonical line for an entry: each present field followed by exactly
/// one space, absent fields contributing nothing, then the description.
pub open spec fn format_spec(e: EntryModel) -> Seq<char> {
    done_seg(e.done) + priority_seg(e.priority) + date_seg(e.completion_date) + date_seg(
        e.creation_date,
    ) + e.description
}

/// How the one or two date-shaped prefixes of a line fill the completion
/// and creation date fields: a lone date is always a creation date.
pub open spec fn date_slots(first: Option<String>, second: Option<String>) -> (
    Option<String>,
    Option<String>,
) {
    match first {
        Some(f) => match second {
            Some(sd) => (Some(f), Some(sd)),
            None => (None, Some(f)),
        },
        None => (None, None),
    }
}

/// Turns the raw first/second date matches of the grammar into the
/// completion/creation date fields.
pub fn completion_and_creation_date(
    first_match: Option<String>,
    second_match: Option<String>,
) -> (r: (Option<String>, Option<String>))
    ensures
        r == date_slots(first_match, second_match),
{
    match first_match {
        Some(first_date) => match second_match {
            Some(second_date) => (Some(first_date), Some(second_date)),
            None => (None, Some(first_date)),
        },
        None => (None, None),
    }
}

/// The character a date carries at offset `j`: hyphens at four and seven,
/// digits elsewhere.
pub open spec fn date_char_at(s: Seq<char>, i: int, j: int) -> bool {
    if j == 4 || j == 7 {
        s[i + j] == '-'
    } else {
        is_digit(s[i + j])
    }
}

/// Whether a date token stands at position `i` of `s`.
fn date_token(s: &str, i: usize, n: usize) -> (b: bool)
    requires
        n == s@.len(),
        i <= n,
    ensures
        b == date_token_at(s@, i as int),
{
    if n - i <= 10 {
        return false;
    }
    if !space_char(s.get_char(i + 10)) {
        return false;
    }
    let mut k: usize = 0;
    while k < 10
        invariant
            n == s@.len(),
            i + 10 < n,
            k <= 10,
            forall|j: int| 0 <= j < k ==> date_char_at(s@, i as int, j),
        decreases 10 - k,
    {
        let c = s.get_char(i + k);
        let ok = if k == 4 || k == 7 {
            c == '-'
        } else {
            digit_char(c)
        };
        if !ok {
            proof {
                let d = s@.subrange(i as int, i as int + 10);
                assert(d[k as int] == s@[i as int + k as int]);
            }
            return false;
        }
        k = k + 1;
    }
    proof {
        let d = s@.subrange(i as int, i as int + 10);
        assert forall|j: int| 0 <= j < 10 && j != 4 && j != 7 implies is_digit(d[j]) by {
            assert(date_char_at(s@, i as int, j));
        }
        assert(date_char_at(s@, i as int, 4));
        assert(date_char_at(s@, i as int, 7));
        assert(d[4] == s@[i as int + 4]);
        assert(d[7] == s@[i as int + 7]);
    }
    true
}

impl TodoEntry {
    /// Parses one line of text.  The grammar always matches, so the result
    /// is always `Ok`; the error slot exists only for callers that expect a
    /// fallible signature.
    pub fn from_str(s: &str) -> (r: Result<TodoEntry, String>)
        ensures
            r is Ok,
            r matches Ok(entry) ==> entry@ == parse_spec(s@),
    {
        let n = s.unicode_len();
        let i0 = skip_spaces(s, 0);
        let mut i = i0;
        let mut done = false;
        if n - i0 > 1 && s.get_char(i0) == 'x' && space_char(s.get_char(i0 + 1)) {
            done = true;
            i = skip_spaces(s, i0 + 1);
        }
        let mut priority: Option<char> = None;
        if n - i > 3 && s.get_char(i) == '(' && upper_char(s.get_char(i + 1)) && s.get_char(i + 2)
            == ')' && space_char(s.get_char(i + 3)) {
            priority = Some(s.get_char(i + 1));
            i = skip_spaces(s, i + 3);
        }
        let mut first_date: Option<String> = None;
        if date_token(s, i, n) {
            first_date = Some(s.substring_char(i, i + 10).to_owned());
            i = skip_spaces(s, i + 10);
        }
        let mut second_date: Option<String> = None;
        if date_token(s, i, n) {
            second_date = Some(s.substring_char(i, i + 10).to_owned());
            i = skip_spaces(s, i + 10);
        }
        let description = s.substring_char(i, n).to_owned();
        let dates = completion_and_creation_date(first_date, second_date);
        let entry = TodoEntry {
            done,
            priority,
            completion_date: dates.0,
            creation_date: dates.1,
            description,
        };
        proof {
            assert(entry@ =~= parse_spec(s@));
        }
        Ok(entry)
    }

    /// The canonical line for this entry: each present field followed by
    /// exactly one space, absent fields contributing nothing, then the
    /// description.
    pub fn to_string(&self) -> (out: String)
        ensures
            out@ == format_spec(self@),
    {
        let mut out = String::new();
        if self.done {
            out.append("x ");
        }
        if let Some(p) = self.priority {
            out.append("(");
            push_char(&mut out, p);
            out.append(") ");
        }
        if let Some(d) = &self.completion_date {
            out.append(d.as_str());
            out.append(" ");
        }
        if let Some(d) = &self.creation_date {
            out.append(d.as_str());
            out.append(" ");
        }
        out.append(self.description.as_str());
        proof {
            reveal_strlit("x ");
            reveal_strlit("(");
            reveal_strlit(") ");
            reveal_strlit(" ");
            assert(out@ =~= format_spec(self@));
        }
        out
    }
}

/// Relies on std's `String::push`: appends the given character to the end
/// of the string.
#[verifier::external_body]
fn push_char(out: &mut String, c: char)
    ensures
        final(out)@ == old(out)@.push(c),
{
    out.push(c);
}

/// A text that does not begin with whitespace (or is empty); what must
/// follow every field separator for the separator to be exactly one space.
pub open spec fn head_ok(t: Seq<char>) -> bool {
    t.len() == 0 || !is_space(t[0])
}

/// A well-formed entry: the priority is an uppercase letter, the dates are
/// date-shaped, and a completion date never stands without a creation date.
pub open spec fn wf_entry(e: EntryModel) -> bool {
    &&& (e.priority matches Some(p) ==> is_upper(p))
    &&& (e.completion_date matches Some(d) ==> is_date(d))
    &&& (e.creation_date matches Some(d) ==> is_date(d))
    &&& (e.completion_date is Some ==> e.creation_date is Some)
}

/// An entry that formatting and re-parsing leaves unchanged: well formed,
/// its description neither begins with whitespace nor mimics a prefix
/// field that the entry itself lacks.
pub open spec fn parse_stable(e: EntryModel) -> bool {
    &&& wf_entry(e)
    &&& head_ok(e.description)
    &&& (!e.done && e.priority is None && e.creation_date is None ==> !done_token_at(
        e.description,
        0,
    ))
    &&& (e.priority is None && e.creation_date is None ==> !priority_token_at(e.description, 0))
    &&& (e.completion_date is None ==> !date_token_at(e.description, 0))
}

/// A canonical line: the formatted form of some parse-stable entry —
/// fields in order, exactly one space after each present field, and no
/// leading whitespace.
pub open spec fn canonical_line(s: Seq<char>) -> bool {
    exists|e: EntryModel| parse_stable(e) && s == format_spec(e)
}

/// A date begins with a digit, so never with a space.
proof fn lemma_date_head(d: Seq<char>)
    requires
        is_date(d),
    ensures
        is_digit(d[0]),
        !is_space(d[0]),
{
    assert(is_digit(d[0]));
}

/// Whitespace runs are unmoved by a prefix: the run of `t` at `i`, seen
/// inside `s + t`, ends where it ends in `t`.
proof fn lemma_space_run_shift(s: Seq<char>, t: Seq<char>, i: int)
    requires
        0 <= i,
    ensures
        space_run_end(s + t, s.len() + i) == s.len() + space_run_end(t, i),
    decreases t.len() - i,
{
    let u = s + t;
    if i < t.len() && is_space(t[i]) {
        assert(u[s.len() + i] == t[i]);
        lemma_space_run_shift(s, t, i + 1);
    } else {
        if i < t.len() {
            assert(u[s.len() + i] == t[i]);
        }
        assert(space_run_end(u, s.len() + i) == s.len() + i);
        assert(space_run_end(t, i) == i);
    }
}

/// Token matches are unmoved by a prefix: a token of `t` at `i`, seen
/// inside `s + t`, matches exactly when it matches in `t`.
proof fn lemma_token_shift(s: Seq<char>, t: Seq<char>, i: int)
    requires
        0 <= i,
    ensures
        done_token_at(s + t, s.len() + i) == done_token_at(t, i),
        priority_token_at(s + t, s.len() + i) == priority_token_at(t, i),
        date_token_at(s + t, s.len() + i) == date_token_at(t, i),
{
    let u = s + t;
    assert(u.len() == s.len() + t.len());
    if i < t.len() {
        assert(u[s.len() + i] == t[i]);
    }
    if i + 1 < t.len() {
        assert(u[s.len() + i + 1] == t[i + 1]);
    }
    if i + 2 < t.len() {
        assert(u[s.len() + i + 2] == t[i + 2]);
    }
    if i + 3 < t.len() {
        assert(u[s.len() + i + 3] == t[i + 3]);
    }
    if i + 10 < t.len() {
        assert(u[s.len() + i + 10] == t[i + 10]);
        assert(u.subrange(s.len() + i, s.len() + i + 10) =~= t.subrange(i, i + 10));
    }
}

/// Formatting a parse-stable entry and parsing the line back yields the
/// entry again, field for field.
#[verifier::rlimit(60)]
pub proof fn lemma_parse_format(e: EntryModel)
    requires
        parse_stable(e),
    ensures
        parse_spec(format_spec(e)) == e,
{
    let s = format_spec(e);
    let a = done_seg(e.done);
    let b = priority_seg(e.priority);
    let c = date_seg(e.completion_date);
    let d = date_seg(e.creation_date);
    let desc = e.description;
    let rest1 = b + c + d + desc;
    let rest2 = c + d + desc;
    let rest3 = d + desc;
    assert(s =~= a + rest1);
    assert(rest1 =~= b + rest2);
    assert(rest2 =~= c + rest3);

    // The text after each separator starts with a non-space character.
    if let Some(rd) = e.creation_date {
        lemma_date_head(rd);
        assert(rest3[0] == rd[0]);
    }
    assert(head_ok(rest3));
    if let Some(cd) = e.completion_date {
        lemma_date_head(cd);
        assert(rest2[0] == cd[0]);
    }
    assert(head_ok(rest2));
    if e.priority is Some {
        assert(rest1[0] == '(');
    }
    assert(head_ok(rest1));

    // No leading whitespace, so parsing starts at position zero.
    if s.len() > 0 {
        if e.done {
            assert(s[0] == 'x');
        } else if e.priority is Some {
            assert(s[0] == '(');
        } else {
            assert(s =~= rest1);
        }
    }
    assert(space_run_end(s, 0) == 0);

    // The done marker.
    let p1 = a.len() as int;
    if e.done {
        assert(s[0] == 'x');
        assert(s[1] == ' ');
        assert(done_token_at(s, 0));
        if rest1.len() > 0 {
            assert(s[2] == rest1[0]);
        }
        lemma_space_run_single(s, 1);
        assert(space_run_end(s, 1) == 2);
    } else {
        assert(a.len() == 0);
        assert(s =~= rest1);
        if e.priority is Some {
            assert(s[0] == '(');
        } else if let Some(cd) = e.completion_date {
            assert(s[0] == cd[0]);
            lemma_date_head(cd);
        } else if let Some(rd) = e.creation_date {
            assert(s[0] == rd[0]);
            lemma_date_head(rd);
        } else {
            assert(s =~= desc);
        }
        assert(!done_token_at(s, 0));
    }

    // The priority marker.
    lemma_token_shift(a, rest1, 0);
    assert(a + rest1 == s);
    let p2: int;
    if let Some(p) = e.priority {
        assert(rest1[0] == '(');
        assert(rest1[1] == p);
        assert(rest1[2] == ')');
        assert(rest1[3] == ' ');
        assert(priority_token_at(rest1, 0));
        assert(priority_token_at(s, p1));
        assert(s[p1 + 1] == rest1[1]);
        lemma_space_run_shift(a, rest1, 3);
        if rest2.len() > 0 {
            assert(rest1[4] == rest2[0]);
        }
        lemma_space_run_single(rest1, 3);
        assert(space_run_end(s, p1 + 3) == p1 + 4);
        p2 = p1 + 4;
    } else {
        assert(b.len() == 0);
        assert(rest1 =~= rest2);
        if let Some(cd) = e.completion_date {
            assert(rest1[0] == cd[0]);
            lemma_date_head(cd);
        } else if let Some(rd) = e.creation_date {
            assert(rest1[0] == rd[0]);
            lemma_date_head(rd);
        } else {
            assert(rest1 =~= desc);
        }
        assert(!priority_token_at(rest1, 0));
        assert(!priority_token_at(s, p1));
        p2 = p1;
    }
    let ab = a + b;
    assert(ab + rest2 =~= s);
    assert(ab.len() == p2);
    lemma_token_shift(ab, rest2, 0);

    // The first date slot.
    let p3: int;
    let d1 = if date_token_at(s, p2) {
        Some(s.subrange(p2, p2 + 10))
    } else {
        None
    };
    if let Some(cd) = e.completion_date {
        let rd = e.creation_date->0;
        assert(rest2 =~= cd.push(' ') + rest3);
        assert(rest2.subrange(0, 10) =~= cd);
        assert(rest2[10] == ' ');
        assert(rest3.len() > 0);
        assert(date_token_at(rest2, 0));
        assert(date_token_at(s, p2));
        assert(s.subrange(p2, p2 + 10) =~= rest2.subrange(0, 10));
        assert(d1 == Some(cd));
        lemma_space_run_shift(ab, rest2, 10);
        assert(rest2[11] == rest3[0]);
        lemma_space_run_single(rest2, 10);
        assert(space_run_end(s, p2 + 10) == p2 + 11);
        p3 = p2 + 11;
    } else if let Some(rd) = e.creation_date {
        assert(c.len() == 0);
        assert(rest2 =~= rd.push(' ') + desc);
        assert(rest2.subrange(0, 10) =~= rd);
        assert(rest2[10] == ' ');
        assert(date_token_at(rest2, 0));
        assert(date_token_at(s, p2));
        assert(s.subrange(p2, p2 + 10) =~= rest2.subrange(0, 10));
        assert(d1 == Some(rd));
        lemma_space_run_shift(ab, rest2, 10);
        if desc.len() > 0 {
            assert(rest2[11] == desc[0]);
        }
        lemma_space_run_single(rest2, 10);
        assert(space_run_end(s, p2 + 10) == p2 + 11);
        p3 = p2 + 11;
    } else {
        assert(c.len() == 0 && d.len() == 0);
        assert(rest2 =~= desc);
        assert(!date_token_at(rest2, 0));
        assert(!date_token_at(s, p2));
        p3 = p2;
    }

    // The second date slot.
    let d2 = if date_token_at(s, p3) {
        Some(s.subrange(p3, p3 + 10))
    } else {
        None
    };
    let p4: int;
    if let Some(cd) = e.completion_date {
        let rd = e.creation_date->0;
        let abc = ab + c;
        assert(abc + rest3 =~= s);
        assert(abc.len() == p3);
        lemma_token_shift(abc, rest3, 0);
        assert(rest3 =~= rd.push(' ') + desc);
        assert(rest3.subrange(0, 10) =~= rd);
        assert(rest3[10] == ' ');
        assert(date_token_at(rest3, 0));
        assert(date_token_at(s, p3));
        assert(s.subrange(p3, p3 + 10) =~= rest3.subrange(0, 10));
        assert(d2 == Some(rd));
        lemma_space_run_shift(abc, rest3, 10);
        if desc.len() > 0 {
            assert(rest3[11] == desc[0]);
        }
        lemma_space_run_single(rest3, 10);
        assert(space_run_end(s, p3 + 10) == p3 + 11);
        p4 = p3 + 11;
    } else {
        // At most one date was formatted, and the text at `p3` is the
        // description, which holds no date token.
        let pre3 = ab + c + d;
        assert(pre3.len() == p3) by {
            if e.creation_date is Some {
                assert(c.len() == 0);
                assert(d.len() == 11);
            }
        }
        assert(pre3 + desc =~= s);
        lemma_token_shift(pre3, desc, 0);
        assert(!date_token_at(desc, 0));
        assert(!date_token_at(s, p3));
        assert(d2 is None);
        p4 = p3;
    }

    // The description is everything after the fields.
    let pre4 = a + b + c + d;
    assert(p4 == pre4.len()) by {
        if e.completion_date is Some {
            assert(c.len() == 11);
            assert(d.len() == 11);
        } else if e.creation_date is Some {
            assert(c.len() == 0);
            assert(d.len() == 11);
        }
    }
    assert(pre4 + desc =~= s);
    assert(s.subrange(p4, s.len() as int) =~= desc);

    let m = parse_spec(s);
    assert(m.done == e.done);
    assert(m.priority == e.priority);
    assert(m.completion_date == e.completion_date);
    assert(m.creation_date == e.creation_date);
    assert(m.description == e.description);
    assert(m =~= e);
}

/// Every parsed entry is well formed: the priority is an uppercase letter,
/// the dates are date-shaped, and a completion date never stands without a
/// creation date — a lone date is always a creation date.
pub proof fn lemma_parse_wf(s: Seq<char>)
    ensures
        wf_entry(parse_spec(s)),
{
}

/// Round trip: formatting what a canonical line parses to yields the line
/// itself, character for character.
pub proof fn lemma_round_trip(s: Seq<char>)
    requires
        canonical_line(s),
    ensures
        format_spec(parse_spec(s)) == s,
{
    let e = choose|e: EntryModel| parse_stable(e) && s == format_spec(e);
    lemma_parse_format(e);
}

/// Whatever the line, the entry parsing yields is parse-stable: well
/// formed, and with a description that neither begins with whitespace nor
/// mimics a prefix field the entry lacks.
pub proof fn lemma_parse_output_stable(s: Seq<char>)
    ensures
        parse_stable(parse_spec(s)),
{
    let m = parse_spec(s);
    let i0 = space_run_end(s, 0);
    lemma_space_run_end(s, 0);
    let done = done_token_at(s, i0);
    let i1 = if done {
        space_run_end(s, i0 + 1)
    } else {
        i0
    };
    if done {
        lemma_space_run_end(s, i0 + 1);
    }
    let pri = priority_token_at(s, i1);
    let i2 = if pri {
        space_run_end(s, i1 + 3)
    } else {
        i1
    };
    if pri {
        lemma_space_run_end(s, i1 + 3);
    }
    let d1 = date_token_at(s, i2);
    let i3 = if d1 {
        space_run_end(s, i2 + 10)
    } else {
        i2
    };
    if d1 {
        lemma_space_run_end(s, i2 + 10);
    }
    let d2 = date_token_at(s, i3);
    let i4 = if d2 {
        space_run_end(s, i3 + 10)
    } else {
        i3
    };
    if d2 {
        lemma_space_run_end(s, i3 + 10);
    }
    assert(0 <= i4 <= s.len());
    let pre = s.subrange(0, i4);
    let desc = s.subrange(i4, s.len() as int);
    assert(pre + desc =~= s);
    assert(pre.len() == i4);
    lemma_token_shift(pre, desc, 0);
    assert(m.description == desc);

    // The description starts where a whitespace run ended, so never with a
    // space.
    if i4 < s.len() {
        assert(!is_space(s[i4]));
        assert(desc[0] == s[i4]);
    }
    assert(head_ok(m.description));

    // Each clause of parse stability holds because the matcher for the
    // missing field already failed at the very position the description
    // starts at.
    if !d1 {
        assert(!d2);
        assert(i4 == i2);
        assert(!date_token_at(desc, 0));
    } else if !d2 {
        assert(i4 == i3);
        assert(!date_token_at(desc, 0));
    }
    if !pri && !d1 {
        assert(i4 == i1);
        assert(!priority_token_at(desc, 0));
    }
    if !done && !pri && !d1 {
        assert(i4 == i0);
        assert(!done_token_at(desc, 0));
    }
    assert(m.completion_date is None <==> !(d1 && d2));
    assert(m.creation_date is None <==> !d1);
    assert(parse_stable(m));
}

/// A line round-trips exactly when it is canonical: formatting what it
/// parses to yields the line itself precisely for the formatted forms of
/// parse-stable entries.
pub proof fn lemma_canonical_iff_round_trip(s: Seq<char>)
    ensures
        canonical_line(s) <==> format_spec(parse_spec(s)) == s,
{
    if canonical_line(s) {
        lemma_round_trip(s);
    }
    if format_spec(parse_spec(s)) == s {
        lemma_parse_output_stable(s);
        assert(parse_stable(parse_spec(s)) && s == format_spec(parse_spec(s)));
    }
}

} // verus!
