//! The search query: one free-text value per searchable facet, plus the
//! star bounds and fork flag consumed by the remote repository search.
use vstd::prelude::*;
use crate::score::{SCALE, MAX_LEN, MAX_LIST};
use crate::template::{Template, normalize_seq};
use crate::bigram::{spec_bigram_similarity, bigram_similarity};
use crate::similarity::{spec_fused_list_similarity, fused_list_similarity};

verus! {

/// The view of a query.
pub ghost struct SearchView {
    pub id: Seq<char>,
    pub title: Seq<char>,
    pub tags: Seq<Seq<char>>,
    pub description: Seq<char>,
    pub references: Seq<Seq<char>>,
    pub min_stars: int,
    pub max_stars: int,
    pub github_fork: bool,
}

/// The user's search intent.
pub struct Search {
    id: String,
    title: String,
    tags: Vec<String>,
    description: String,
    references: Vec<String>,
    min_stars: isize,
    max_stars: isize,
    github_fork: bool,
}

impl View for Search {
    type V = SearchView;

    closed spec fn view(&self) -> SearchView {
        SearchView {
            id: self.id@,
            title: self.title@,
            tags: self.tags.deep_view(),
            description: self.description@,
            references: self.references.deep_view(),
            min_stars: self.min_stars as int,
            max_stars: self.max_stars as int,
            github_fork: self.github_fork,
        }
    }
}

impl Search {
    /// A query with every text facet empty, 100 minimum stars, an open-ended
    /// maximum (written as -1), and forks excluded.
    pub fn new_empty() -> (r: Search)
        ensures
            r@.id == Seq::<char>::empty(),
            r@.title == Seq::<char>::empty(),
            r@.tags == Seq::<Seq<char>>::empty(),
            r@.description == Seq::<char>::empty(),
            r@.references == Seq::<Seq<char>>::empty(),
            r@.min_stars == 100,
            r@.max_stars == -1,
            r@.github_fork == false,
    {
        let r = Search {
            id: String::new(),
            title: String::new(),
            tags: Vec::new(),
            description: String::new(),
            references: Vec::new(),
            min_stars: 100,
            max_stars: -1,
            github_fork: false,
        };
        proof {
            assert(r@.tags =~~= Seq::<Seq<char>>::empty());
            assert(r@.references =~~= Seq::<Seq<char>>::empty());
        }
        r
    }

    pub fn id_get(&self) -> (r: &String)
        ensures
            r@ == self@.id,
    {
        &self.id
    }

    /// Set the identifier facet; the value is normalized like an entry
    /// identifier.
    pub fn id_set(&mut self, in_id: &String)
        ensures
            final(self)@ == (SearchView { id: normalize_seq(in_id@), ..old(self)@ }),
    {
        self.id = Template::convert_to_lowercase_alphanumeric_with_hyphens(in_id);
    }

    pub fn title_get(&self) -> (r: &str)
        ensures
            r@ == self@.title,
    {
        self.title.as_str()
    }

    pub fn title_set(&mut self, in_title: &String)
        ensures
            final(self)@ == (SearchView { title: in_title@, ..old(self)@ }),
    {
        self.title = in_title.clone();
    }

    pub fn tags_get(&self) -> (r: &Vec<String>)
        ensures
            r.deep_view() == self@.tags,
    {
        &self.tags
    }

    pub fn tags_set(&mut self, in_tags: &Vec<String>)
        ensures
            final(self)@ == (SearchView { tags: in_tags.deep_view(), ..old(self)@ }),
    {
        self.tags = clone_strings(in_tags);
    }

    pub fn description_get(&self) -> (r: &String)
        ensures
            r@ == self@.description,
    {
        &self.description
    }

    pub fn description_set(&mut self, in_description: &String)
        ensures
            final(self)@ == (SearchView { description: in_description@, ..old(self)@ }),
    {
        self.description = in_description.clone();
    }

    pub fn reference_get(&self) -> (r: &Vec<String>)
        ensures
            r.deep_view() == self@.references,
    {
        &self.references
    }

    pub fn reference_set(&mut self, in_reference: &Vec<String>)
        ensures
            final(self)@ == (SearchView { references: in_reference.deep_view(), ..old(self)@ }),
    {
        self.references = clone_strings(in_reference);
    }

    pub fn min_stars_get(&self) -> (r: &isize)
        ensures
            *r == self@.min_stars,
    {
        &self.min_stars
    }

    pub fn min_stars_set(&mut self, in_min_stars: isize)
        ensures
            final(self)@ == (SearchView { min_stars: in_min_stars as int, ..old(self)@ }),
    {
        self.min_stars = in_min_stars;
    }

    pub fn max_stars_get(&self) -> (r: &isize)
        ensures
            *r == self@.max_stars,
    {
        &self.max_stars
    }

    pub fn max_stars_set(&mut self, in_max_stars: isize)
        ensures
            final(self)@ == (SearchView { max_stars: in_max_stars as int, ..old(self)@ }),
    {
        self.max_stars = in_max_stars;
    }

    pub fn github_fork_get(&self) -> (r: &bool)
        ensures
            *r == self@.github_fork,
    {
        &self.github_fork
    }

    pub fn github_fork_set(&mut self, in_github_fork: bool)
        ensures
            final(self)@ == (SearchView { github_fork: in_github_fork, ..old(self)@ }),
    {
        self.github_fork = in_github_fork;
    }

    /// Bigram cosine similarity of two strings.
    pub fn cosine_similarity(word: &str, query: &str) -> (r: u64)
        requires
            word@.len() <= MAX_LEN,
            query@.len() <= MAX_LEN,
        ensures
            r == spec_bigram_similarity(word@, query@),
            r <= SCALE,
    {
        bigram_similarity(word, query)
    }

    /// Average bigram cosine similarity over every pair from the cross
    /// product of the two lists.
    pub fn cosine_similarities(words: &Vec<String>, queries: &Vec<String>) -> (r: u64)
        requires
            words@.len() <= MAX_LIST,
            queries@.len() <= MAX_LIST,
            forall|i: int| 0 <= i < words@.len() ==> words.deep_view()[i].len() <= MAX_LEN,
            forall|i: int| 0 <= i < queries@.len() ==> queries.deep_view()[i].len() <= MAX_LEN,
        ensures
            r == spec_fused_list_similarity(words.deep_view(), queries.deep_view()),
            r <= SCALE,
    {
        fused_list_similarity(words, queries)
    }
}

/// An element-wise copy of a string list.
fn clone_strings(v: &Vec<String>) -> (r: Vec<String>)
    ensures
        r.deep_view() == v.deep_view(),
        r@.len() == v@.len(),
{
    let mut r: Vec<String> = Vec::new();
    let mut i: usize = 0;
    while i < v.len()
        invariant
            i <= v@.len(),
            r@.len() == i,
            forall|k: int| 0 <= k < i ==> r.deep_view()[k] == v.deep_view()[k],
        decreases v@.len() - i,
    {
        r.push(v[i].clone());
        i += 1;
    }
    proof {
        assert(r.deep_view() =~~= v.deep_view());
    }
    r
}

} // verus!
