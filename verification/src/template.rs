//! Catalog entries.  A `Template` is one immutable record of the catalog:
//! its identifier and tags are normalized on construction, and its relevance
//! to the query — the unweighted mean of five per-field similarity scores —
//! is computed once and frozen.
use vstd::prelude::*;
use vstd::string::StringExecFns;
use crate::score::{SCALE, MAX_LEN, MAX_LIST};
use crate::text::{
    is_ascii_alnum,
    is_space_char,
    spec_lower_char,
    char_is_ascii_alnum,
    char_is_space,
    lower_char,
    chars_of,
    push_char,
};
use crate::similarity::{
    spec_fused_similarity,
    fused_similarity,
    spec_fused_list_similarity,
    fused_list_similarity,
};

verus! {

/// The characters an identifier or tag keeps: ASCII alphanumerics, hyphens,
/// and whitespace.
pub open spec fn keeps_char(c: char) -> bool {
    is_ascii_alnum(c) || c == '-' || is_space_char(c)
}

/// Normalization of an identifier or tag: every kept character is
/// ASCII-lowercased, every other character is stripped.
pub open spec fn normalize_seq(s: Seq<char>) -> Seq<char>
    decreases s.len(),
{
    if s.len() == 0 {
        Seq::empty()
    } else {
        normalize_seq(s.drop_last()) + if keeps_char(s.last()) {
            seq![spec_lower_char(s.last())]
        } else {
            Seq::<char>::empty()
        }
    }
}

/// Normalization never lengthens a string.
pub proof fn lemma_normalize_len(s: Seq<char>)
    ensures
        normalize_seq(s).len() <= s.len(),
    decreases s.len(),
{
    if s.len() > 0 {
        lemma_normalize_len(s.drop_last());
    }
}

proof fn lemma_lower_char_kept(c: char)
    requires
        keeps_char(c),
    ensures
        keeps_char(spec_lower_char(c)),
        spec_lower_char(spec_lower_char(c)) == spec_lower_char(c),
{
}

/// Law: normalization is idempotent — normalizing an already-normalized
/// identifier or tag is a no-op.
pub proof fn lemma_normalize_idempotent(s: Seq<char>)
    ensures
        normalize_seq(normalize_seq(s)) == normalize_seq(s),
    decreases s.len(),
{
    if s.len() > 0 {
        lemma_normalize_idempotent(s.drop_last());
        let prev = normalize_seq(s.drop_last());
        if keeps_char(s.last()) {
            let c = spec_lower_char(s.last());
            lemma_lower_char_kept(s.last());
            assert(normalize_seq(s) =~= prev.push(c));
            assert(normalize_seq(s).drop_last() =~= prev);
            assert(normalize_seq(normalize_seq(s)) =~= normalize_seq(prev).push(
                spec_lower_char(c),
            ));
            assert(normalize_seq(normalize_seq(s)) =~= normalize_seq(s));
        } else {
            assert(normalize_seq(s) =~= prev);
        }
    }
}

/// The view of a catalog entry: its fields as mathematical values.
pub ghost struct TemplateView {
    pub id: Seq<char>,
    pub title: Seq<char>,
    pub tags: Seq<Seq<char>>,
    pub description: Seq<char>,
    pub references: Seq<Seq<char>>,
    pub why_not: Seq<Seq<char>>,
    pub distance: int,
}

/// One catalog entry together with its relevance to the query it was scored
/// against.
pub struct Template {
    id: String,
    title: String,
    tags: Vec<String>,
    description: String,
    references: Vec<String>,
    why_not: Vec<String>,
    distance: u64,
}

impl View for Template {
    type V = TemplateView;

    closed spec fn view(&self) -> TemplateView {
        TemplateView {
            id: self.id@,
            title: self.title@,
            tags: self.tags.deep_view(),
            description: self.description@,
            references: self.references.deep_view(),
            why_not: self.why_not.deep_view(),
            distance: self.distance as int,
        }
    }
}

/// The relevance of an entry to a query: the unweighted mean of the five
/// per-field similarity scores.  The identifier and the tags are compared in
/// normalized form; title, description and references are compared verbatim.
pub open spec fn spec_relevance(
    id: Seq<char>,
    id_search: Seq<char>,
    title: Seq<char>,
    title_search: Seq<char>,
    tags: Seq<Seq<char>>,
    tags_search: Seq<Seq<char>>,
    description: Seq<char>,
    description_search: Seq<char>,
    references: Seq<Seq<char>>,
    references_search: Seq<Seq<char>>,
) -> int {
    let id_score = spec_fused_similarity(normalize_seq(id), normalize_seq(id_search));
    let title_score = spec_fused_similarity(title, title_search);
    let tags_score = spec_fused_list_similarity(
        tags.map_values(|t: Seq<char>| normalize_seq(t)),
        tags_search.map_values(|t: Seq<char>| normalize_seq(t)),
    );
    let description_score = spec_fused_similarity(description, description_search);
    let references_score = spec_fused_list_similarity(references, references_search);
    (id_score + title_score + tags_score + description_score + references_score) / 5
}

/// Separator-joined concatenation of a list of strings.
pub open spec fn join_spec(parts: Seq<Seq<char>>, sep: Seq<char>) -> Seq<char>
    decreases parts.len(),
{
    if parts.len() == 0 {
        Seq::empty()
    } else if parts.len() == 1 {
        parts[0]
    } else {
        join_spec(parts.drop_last(), sep) + sep + parts.last()
    }
}

/// The detailed display text of an entry: identifier and title on the first
/// line, then the tags joined by commas, the description, and one reference
/// per line.  With `why_not` set and alternatives recorded, the alternatives
/// block follows, one "Why Not" line per alternative.
pub open spec fn spec_full_text(v: TemplateView, why_not: bool) -> Seq<char> {
    let base = v.id + " "@ + v.title + "\n    "@ + join_spec(v.tags, ", "@) + "\n    "@
        + v.description + "\n"@ + join_spec(
        v.references.map_values(|r: Seq<char>| "    "@ + r),
        "\n"@,
    );
    if why_not && v.why_not.len() > 0 {
        base + "\n    "@ + join_spec(v.why_not.map_values(|w: Seq<char>| "Why Not "@ + w), "\n"@)
    } else {
        base
    }
}

/// The compact display text of an entry: the title, then one reference per
/// line, with the same optional alternatives block as the detailed form.
pub open spec fn spec_short_text(v: TemplateView, why_not: bool) -> Seq<char> {
    let base = v.title + "\n"@ + join_spec(
        v.references.map_values(|r: Seq<char>| "    "@ + r),
        "\n"@,
    );
    if why_not && v.why_not.len() > 0 {
        base + "\n    "@ + join_spec(v.why_not.map_values(|w: Seq<char>| "Why Not "@ + w), "\n"@)
    } else {
        base
    }
}

impl Template {
    /// The internal invariant of every entry: its relevance is a fixed-point
    /// value in `[0, SCALE]`.
    #[verifier::type_invariant]
    spec fn type_inv(self) -> bool {
        self.distance <= SCALE
    }

    /// Strip a string to lowercase ASCII alphanumerics, hyphens and
    /// whitespace.
    pub fn convert_to_lowercase_alphanumeric_with_hyphens(in_str: &String) -> (r: String)
        ensures
            r@ == normalize_seq(in_str@),
            r@.len() <= in_str@.len(),
    {
        let cs = chars_of(in_str.as_str());
        let mut r = String::new();
        let mut i: usize = 0;
        proof {
            lemma_normalize_len(in_str@);
        }
        while i < cs.len()
            invariant
                i <= cs@.len(),
                cs@ == in_str@,
                r@ == normalize_seq(in_str@.take(i as int)),
                r@.len() <= i,
            decreases cs@.len() - i,
        {
            let c = cs[i];
            let ghost taken = in_str@.take(i as int);
            proof {
                assert(in_str@.take(i + 1).drop_last() =~= taken);
                assert(in_str@.take(i + 1).last() == in_str@[i as int]);
            }
            if char_is_ascii_alnum(c) || c == '-' || char_is_space(c) {
                push_char(&mut r, lower_char(c));
                assert(r@ =~= normalize_seq(in_str@.take(i + 1)));
            } else {
                assert(r@ =~= normalize_seq(in_str@.take(i + 1)));
            }
            i += 1;
        }
        proof {
            assert(in_str@.take(in_str@.len() as int) =~= in_str@);
        }
        r
    }

    /// Normalize every tag of a list.
    pub fn convert_tags_to_excepted_format(in_tags: &Vec<String>) -> (r: Vec<String>)
        ensures
            r.deep_view() == in_tags.deep_view().map_values(|t: Seq<char>| normalize_seq(t)),
            r@.len() == in_tags@.len(),
            forall|k: int|
                0 <= k < r@.len() ==> r.deep_view()[k].len() <= in_tags.deep_view()[k].len(),
    {
        let mut r: Vec<String> = Vec::new();
        let mut i: usize = 0;
        while i < in_tags.len()
            invariant
                i <= in_tags@.len(),
                r@.len() == i,
                r.deep_view() =~= in_tags.deep_view().take(i as int).map_values(
                    |t: Seq<char>| normalize_seq(t),
                ),
                forall|k: int|
                    0 <= k < i ==> r.deep_view()[k].len() <= in_tags.deep_view()[k].len(),
            decreases in_tags@.len() - i,
        {
            let ghost old_r = r.deep_view();
            let t = Self::convert_to_lowercase_alphanumeric_with_hyphens(&in_tags[i]);
            r.push(t);
            proof {
                assert(r.deep_view() =~~= old_r.push(normalize_seq(in_tags.deep_view()[i as int])));
                assert(r.deep_view() =~~= in_tags.deep_view().take(i + 1).map_values(
                    |t: Seq<char>| normalize_seq(t),
                ));
            }
            i += 1;
        }
        proof {
            assert(in_tags.deep_view().take(in_tags@.len() as int) =~~= in_tags.deep_view());
        }
        r
    }

    /// Score one raw catalog record against the query fields and freeze the
    /// result as an immutable entry.
    pub fn new(
        in_id: String,
        in_id_search: String,
        in_title: String,
        in_title_search: String,
        in_tags: Vec<String>,
        in_tags_search: Vec<String>,
        in_description: String,
        in_description_search: String,
        in_references: Vec<String>,
        in_references_search: Vec<String>,
        in_why_not: Vec<String>,
    ) -> (r: Template)
        requires
            in_id@.len() <= MAX_LEN,
            in_id_search@.len() <= MAX_LEN,
            in_title@.len() <= MAX_LEN,
            in_title_search@.len() <= MAX_LEN,
            in_description@.len() <= MAX_LEN,
            in_description_search@.len() <= MAX_LEN,
            in_tags@.len() <= MAX_LIST,
            in_tags_search@.len() <= MAX_LIST,
            in_references@.len() <= MAX_LIST,
            in_references_search@.len() <= MAX_LIST,
            forall|k: int| 0 <= k < in_tags@.len() ==> in_tags.deep_view()[k].len() <= MAX_LEN,
            forall|k: int|
                0 <= k < in_tags_search@.len() ==> in_tags_search.deep_view()[k].len() <= MAX_LEN,
            forall|k: int|
                0 <= k < in_references@.len() ==> in_references.deep_view()[k].len() <= MAX_LEN,
            forall|k: int|
                0 <= k < in_references_search@.len() ==> in_references_search.deep_view()[k].len()
                    <= MAX_LEN,
        ensures
            r@.id == normalize_seq(in_id@),
            r@.title == in_title@,
            r@.tags == in_tags.deep_view().map_values(|t: Seq<char>| normalize_seq(t)),
            r@.description == in_description@,
            r@.references == in_references.deep_view(),
            r@.why_not == in_why_not.deep_view(),
            r@.distance == spec_relevance(
                in_id@,
                in_id_search@,
                in_title@,
                in_title_search@,
                in_tags.deep_view(),
                in_tags_search.deep_view(),
                in_description@,
                in_description_search@,
                in_references.deep_view(),
                in_references_search.deep_view(),
            ),
            0 <= r@.distance <= SCALE,
    {
        let out_id = Self::convert_to_lowercase_alphanumeric_with_hyphens(&in_id);
        let out_id_search = Self::convert_to_lowercase_alphanumeric_with_hyphens(&in_id_search);
        let id_score = fused_similarity(out_id.as_str(), out_id_search.as_str());
        let title_score = fused_similarity(in_title.as_str(), in_title_search.as_str());
        let out_tags = Self::convert_tags_to_excepted_format(&in_tags);
        let out_tags_search = Self::convert_tags_to_excepted_format(&in_tags_search);
        let tags_score = fused_list_similarity(&out_tags, &out_tags_search);
        let description_score = fused_similarity(
            in_description.as_str(),
            in_description_search.as_str(),
        );
        let references_score = fused_list_similarity(&in_references, &in_references_search);
        let distance = (id_score + title_score + tags_score + description_score
            + references_score) / 5;
        Template {
            id: out_id,
            title: in_title,
            tags: out_tags,
            description: in_description,
            references: in_references,
            why_not: in_why_not,
            distance,
        }
    }

    /// The frozen relevance of this entry, in fixed-point.
    pub fn distance(&self) -> (r: u64)
        ensures
            r == self@.distance,
            0 <= r <= SCALE,
    {
        proof {
            use_type_invariant(self);
        }
        self.distance
    }

    /// The normalized identifier.
    pub fn id(&self) -> (r: &String)
        ensures
            r@ == self@.id,
    {
        &self.id
    }

    /// The verbatim title.
    pub fn title(&self) -> (r: &String)
        ensures
            r@ == self@.title,
    {
        &self.title
    }

    /// The normalized tags.
    pub fn tags(&self) -> (r: &Vec<String>)
        ensures
            r.deep_view() == self@.tags,
    {
        &self.tags
    }

    /// The verbatim description.
    pub fn description(&self) -> (r: &String)
        ensures
            r@ == self@.description,
    {
        &self.description
    }

    /// The verbatim references.
    pub fn references(&self) -> (r: &Vec<String>)
        ensures
            r.deep_view() == self@.references,
    {
        &self.references
    }

    /// The recorded alternatives.
    pub fn why_not(&self) -> (r: &Vec<String>)
        ensures
            r.deep_view() == self@.why_not,
    {
        &self.why_not
    }

    /// The tags on one line, separated by commas.
    pub fn tags_to_string(&self) -> (r: String)
        ensures
            r@ == join_spec(self@.tags, ", "@),
    {
        let r = join_with_prefix(&self.tags, "", ", ");
        proof {
            reveal_strlit("");
            assert(""@ =~= Seq::<char>::empty());
            assert(self.tags.deep_view().map_values(|p: Seq<char>| ""@ + p) =~~= self@.tags);
        }
        r
    }

    /// The references, one per indented line.
    pub fn references_to_string(&self) -> (r: String)
        ensures
            r@ == join_spec(self@.references.map_values(|p: Seq<char>| "    "@ + p), "\n"@),
    {
        join_with_prefix(&self.references, "    ", "\n")
    }

    /// The alternatives, one per line.
    pub fn why_not_to_string(&self) -> (r: String)
        ensures
            r@ == join_spec(self@.why_not.map_values(|p: Seq<char>| "Why Not "@ + p), "\n"@),
    {
        join_with_prefix(&self.why_not, "Why Not ", "\n")
    }

    /// The detailed display text of this entry.
    pub fn to_string(&self, why_not: bool) -> (r: String)
        ensures
            r@ == spec_full_text(self@, why_not),
    {
        let mut out = String::new();
        out.append(self.id.as_str());
        out.append(" ");
        out.append(self.title.as_str());
        out.append("\n    ");
        let tags = self.tags_to_string();
        out.append(tags.as_str());
        out.append("\n    ");
        out.append(self.description.as_str());
        out.append("\n");
        let refs = self.references_to_string();
        out.append(refs.as_str());
        if why_not && self.why_not.len() > 0 {
            out.append("\n    ");
            let w = self.why_not_to_string();
            out.append(w.as_str());
        }
        proof {
            assert(out@ =~= spec_full_text(self@, why_not));
        }
        out
    }

    /// The compact display text of this entry.
    pub fn to_short_string(&self, why_not: bool) -> (r: String)
        ensures
            r@ == spec_short_text(self@, why_not),
    {
        let mut out = String::new();
        out.append(self.title.as_str());
        out.append("\n");
        let refs = self.references_to_string();
        out.append(refs.as_str());
        if why_not && self.why_not.len() > 0 {
            out.append("\n    ");
            let w = self.why_not_to_string();
            out.append(w.as_str());
        }
        proof {
            assert(out@ =~= spec_short_text(self@, why_not));
        }
        out
    }
}

/// Join the elements of `parts`, each preceded by `prefix`, separated by
/// `sep`.
fn join_with_prefix(parts: &Vec<String>, prefix: &str, sep: &str) -> (r: String)
    ensures
        r@ == join_spec(parts.deep_view().map_values(|p: Seq<char>| prefix@ + p), sep@),
{
    let ghost mapped = parts.deep_view().map_values(|p: Seq<char>| prefix@ + p);
    let mut r = String::new();
    let mut i: usize = 0;
    proof {
        assert(mapped.take(0) =~~= Seq::<Seq<char>>::empty());
    }
    while i < parts.len()
        invariant
            i <= parts@.len(),
            mapped == parts.deep_view().map_values(|p: Seq<char>| prefix@ + p),
            r@ == if 0 < i < parts@.len() {
                join_spec(mapped.take(i as int), sep@) + sep@
            } else {
                join_spec(mapped.take(i as int), sep@)
            },
        decreases parts@.len() - i,
    {
        let ghost before = r@;
        r.append(prefix);
        r.append(parts[i].as_str());
        proof {
            assert(mapped[i as int] == prefix@ + parts.deep_view()[i as int]);
            assert(mapped.take(i + 1).drop_last() =~= mapped.take(i as int));
            assert(mapped.take(i + 1).last() == mapped[i as int]);
            if i == 0 {
                assert(r@ =~= join_spec(mapped.take(1), sep@));
            } else {
                assert(r@ =~= join_spec(mapped.take(i as int), sep@) + sep@ + mapped[i as int]);
                assert(r@ =~= join_spec(mapped.take(i + 1), sep@));
            }
        }
        if i + 1 < parts.len() {
            r.append(sep);
        }
        i += 1;
    }
    proof {
        assert(mapped.take(parts@.len() as int) =~~= mapped);
    }
    r
}

} // verus!
