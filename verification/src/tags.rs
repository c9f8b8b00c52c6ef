//! Extraction of typed tags from a task description.
//!
//! A description splits at runs of ASCII whitespace into words, and each
//! word is classified with first-match-wins precedence: a `+` prefix makes
//! a project, an `@` prefix makes a context, otherwise a word containing a
//! colon splits at its first colon into a key and a value, and any other
//! word contributes nothing.

use crate::entry::TodoEntry;
use crate::scan::{is_space, space_char, word_run_end};
use vstd::prelude::*;

verus! {

/// The mathematical model of a tag, with text as sequences of characters.
pub enum TagModel {
    Project(Seq<char>),
    Context(Seq<char>),
    KeyValue(Seq<char>, Seq<char>),
}

/// A piece of structured metadata embedded in a description: a project
/// (`+name`), a context (`@name`), or a key-value pair (`key:value`).
#[derive(Debug)]
pub enum Tag {
    Project(String),
    Context(String),
    KeyValue(String, String),
}

impl View for Tag {
    type V = TagModel;

    open spec fn view(&self) -> TagModel {
        match self {
            Tag::Project(name) => TagModel::Project(name@),
            Tag::Context(name) => TagModel::Context(name@),
            Tag::KeyValue(key, value) => TagModel::KeyValue(key@, value@),
        }
    }
}

impl PartialEq for Tag {
    fn eq(&self, other: &Tag) -> (r: bool) {
        match (self, other) {
            (Tag::Project(a), Tag::Project(b)) => *a == *b,
            (Tag::Context(a), Tag::Context(b)) => *a == *b,
            (Tag::KeyValue(ak, av), Tag::KeyValue(bk, bv)) => *ak == *bk && *av == *bv,
            _ => false,
        }
    }
}

impl vstd::std_specs::cmp::PartialEqSpecImpl for Tag {
    open spec fn obeys_eq_spec() -> bool {
        true
    }

    open spec fn eq_spec(&self, other: &Tag) -> bool {
        self@ == other@
    }
}

/// Whether the word contains a colon anywhere.
pub open spec fn has_colon(w: Seq<char>) -> bool {
    exists|k: int| 0 <= k < w.len() && w[k] == ':'
}

/// The position of the first colon of the word.
pub open spec fn colon_index(w: Seq<char>) -> int
    decreases w.len(),
{
    if w.len() == 0 {
        0
    } else if w[0] == ':' {
        0
    } else {
        1 + colon_index(w.subrange(1, w.len() as int))
    }
}

/// The first colon is at `k` exactly when `k` holds a colon and nothing
/// before it does.
pub proof fn lemma_colon_index_is_first(w: Seq<char>, k: int)
    requires
        0 <= k < w.len(),
        w[k] == ':',
        forall|j: int| 0 <= j < k ==> w[j] != ':',
    ensures
        has_colon(w),
        colon_index(w) == k,
    decreases w.len(),
{
    if w[0] != ':' {
        let t = w.subrange(1, w.len() as int);
        assert(t[k - 1] == ':');
        assert(forall|j: int| 0 <= j < k - 1 ==> t[j] == w[j + 1]);
        lemma_colon_index_is_first(t, k - 1);
    }
}

/// How one word is classified, first match wins: `+` prefix, then `@`
/// prefix, then a split at the first colon, otherwise no tag.
pub open spec fn classify_spec(w: Seq<char>) -> Option<TagModel> {
    if w.len() > 0 && w[0] == '+' {
        Some(TagModel::Project(w.subrange(1, w.len() as int)))
    } else if w.len() > 0 && w[0] == '@' {
        Some(TagModel::Context(w.subrange(1, w.len() as int)))
    } else if has_colon(w) {
        Some(
            TagModel::KeyValue(
                w.subrange(0, colon_index(w)),
                w.subrange(colon_index(w) + 1, w.len() as int),
            ),
        )
    } else {
        None
    }
}

/// The tags of the words of `s` from position `i` on, in order of their
/// source words.
pub open spec fn tags_from(s: Seq<char>, i: int) -> Seq<TagModel>
    decreases s.len() - i, when 0 <= i via tags_from_decreases
{
    if i >= s.len() {
        Seq::<TagModel>::empty()
    } else if is_space(s[i]) {
        tags_from(s, i + 1)
    } else {
        let k = word_run_end(s, i);
        let rest = tags_from(s, k);
        match classify_spec(s.subrange(i, k)) {
            Some(t) => seq![t] + rest,
            None => rest,
        }
    }
}

#[via_fn]
proof fn tags_from_decreases(s: Seq<char>, i: int) {
    if 0 <= i < s.len() && !is_space(s[i]) {
        crate::scan::lemma_word_run_end(s, i);
        assert(word_run_end(s, i) == word_run_end(s, i + 1));
    }
}

/// The ordered tags embedded in a description.
pub open spec fn tags_spec(s: Seq<char>) -> Seq<TagModel> {
    tags_from(s, 0)
}

/// Prefix classification takes precedence over colon detection: a word
/// with a `+` or `@` prefix is a project or a context, never a key-value
/// pair, whatever colons it contains.
pub proof fn lemma_prefix_precedence(w: Seq<char>)
    requires
        w.len() > 0,
        w[0] == '+' || w[0] == '@',
    ensures
        w[0] == '+' ==> classify_spec(w) == Some(
            TagModel::Project(w.subrange(1, w.len() as int)),
        ),
        w[0] == '@' ==> classify_spec(w) == Some(
            TagModel::Context(w.subrange(1, w.len() as int)),
        ),
{
}

/// Tag extraction has no hidden state: any two results that satisfy the
/// extractor's contract for equal descriptions are equal, tag for tag.
pub proof fn lemma_tags_deterministic(
    r1: Seq<TagModel>,
    r2: Seq<TagModel>,
    d1: Seq<char>,
    d2: Seq<char>,
)
    requires
        d1 == d2,
        r1 == tags_spec(d1),
        r2 == tags_spec(d2),
    ensures
        r1 == r2,
{
}

/// The models of a sequence of tags, element by element.
pub open spec fn tag_views(ts: Seq<Tag>) -> Seq<TagModel> {
    ts.map_values(|t: Tag| t@)
}

/// The model of an optional tag.
pub open spec fn opt_tag_view(r: Option<Tag>) -> Option<TagModel> {
    match r {
        Some(t) => Some(t@),
        None => None,
    }
}

/// Classifies one whitespace-free word, first match wins.
fn classify_word(w: &str) -> (r: Option<Tag>)
    ensures
        opt_tag_view(r) == classify_spec(w@),
{
    let len = w.unicode_len();
    if len > 0 && w.get_char(0) == '+' {
        return Some(Tag::Project(w.substring_char(1, len).to_owned()));
    }
    if len > 0 && w.get_char(0) == '@' {
        return Some(Tag::Context(w.substring_char(1, len).to_owned()));
    }
    let mut k: usize = 0;
    while k < len
        invariant
            k <= len,
            len == w@.len(),
            w@.len() > 0 ==> w@[0] != '+' && w@[0] != '@',
            forall|j: int| 0 <= j < k ==> w@[j] != ':',
        decreases len - k,
    {
        if w.get_char(k) == ':' {
            proof {
                lemma_colon_index_is_first(w@, k as int);
            }
            let key = w.substring_char(0, k).to_owned();
            let value = w.substring_char(k + 1, len).to_owned();
            return Some(Tag::KeyValue(key, value));
        }
        k = k + 1;
    }
    proof {
        assert(!has_colon(w@));
    }
    None
}

impl TodoEntry {
    /// The ordered tags embedded in this entry's description; words that
    /// classify as no tag contribute nothing.
    pub fn tags(self) -> (r: Vec<Tag>)
        ensures
            tag_views(r@) == tags_spec(self.description@),
    {
        let d: &str = self.description.as_str();
        let n = d.unicode_len();
        let mut r: Vec<Tag> = Vec::new();
        let mut i: usize = 0;
        while i < n
            invariant
                i <= n,
                n == d@.len(),
                d@ == self.description@,
                tag_views(r@) + tags_from(d@, i as int) == tags_spec(d@),
            decreases n - i,
        {
            if space_char(d.get_char(i)) {
                proof {
                    assert(tags_from(d@, i as int) == tags_from(d@, i as int + 1));
                }
                i = i + 1;
            } else {
                let j = crate::scan::skip_word(d, i);
                proof {
                    crate::scan::lemma_word_run_end(d@, i as int);
                    assert(word_run_end(d@, i as int) == word_run_end(d@, i as int + 1));
                    crate::scan::lemma_word_run_end(d@, i as int + 1);
                }
                let w = d.substring_char(i, j);
                let t = classify_word(w);
                let ghost prev = r@;
                match t {
                    Some(tag) => {
                        r.push(tag);
                        proof {
                            assert(tag_views(r@) =~= tag_views(prev) + seq![tag@]);
                        }
                    },
                    None => {},
                }
                proof {
                    assert(tag_views(r@) + tags_from(d@, j as int) =~= tags_spec(d@));
                }
                i = j;
            }
        }
        proof {
            assert(tags_from(d@, n as int) =~= Seq::<TagModel>::empty());
            assert(tag_views(r@) =~= tags_spec(self.description@));
        }
        r
    }
}

} // verus!
