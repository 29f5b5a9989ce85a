//! The catalog source configuration: the download location of the catalog
//! bundle and its content version marker, together with the verified logic
//! that derives storage paths and update requests from the location.
//!
//! Reading and writing the configuration file, and every network access,
//! live outside this crate; this module holds the pure computations on the
//! location string.
use vstd::prelude::*;
use vstd::string::StringExecFns;
use crate::text::{chars_of, push_char};

verus! {

/// What `url::Url::parse` accepts and, for an accepted string, the
/// percent-encoded path of the parsed URL.  Both depend on the string alone.
pub uninterp spec fn url_parse_path(s: Seq<char>) -> Option<Seq<char>>;

/// Relies on `url::Url::parse` and `url::Url::path`: parse an absolute URL
/// and return its path.
#[verifier::external_body]
fn parse_url_path(in_url: &str) -> (r: Option<String>)
    ensures
        r is Some <==> url_parse_path(in_url@) is Some,
        r is Some ==> r->0@ == url_parse_path(in_url@)->0,
{
    match url::Url::parse(in_url) {
        Ok(u) => Some(u.path().to_string()),
        Err(_) => None,
    }
}

/// What `serde_json` finds at `object.sha` in a response body: the string
/// value stored there, when the body parses as JSON and carries one.  The
/// result depends on the body alone.
pub uninterp spec fn git_ref_sha(body: Seq<char>) -> Option<Seq<char>>;

/// Relies on `serde_json::from_str`, `serde_json::Value::get` and
/// `serde_json::Value::as_str`: parse the body and read the string at
/// `object.sha`.
#[verifier::external_body]
fn extract_ref_sha(body: &str) -> (r: Option<String>)
    ensures
        r is Some <==> git_ref_sha(body@) is Some,
        r is Some ==> r->0@ == git_ref_sha(body@)->0,
{
    let v: serde_json::Value = match serde_json::from_str(body) {
        Ok(v) => v,
        Err(_) => return None,
    };
    v.get("object").and_then(|o| o.get("sha")).and_then(|s| s.as_str()).map(|s| s.to_string())
}

/// The string holds two consecutive dots somewhere.
pub open spec fn has_dotdot(s: Seq<char>) -> bool {
    exists|i: int| 0 <= i && i + 2 <= s.len() && #[trigger] s[i] == '.' && s[i + 1] == '.'
}

fn contains_dotdot(s: &str) -> (r: bool)
    ensures
        r == has_dotdot(s@),
{
    let cs = chars_of(s);
    if cs.len() < 2 {
        return false;
    }
    let mut i: usize = 0;
    while i < cs.len() - 1
        invariant
            cs@ == s@,
            2 <= cs@.len(),
            i <= cs@.len() - 1,
            forall|k: int| 0 <= k < i ==> !(#[trigger] s@[k] == '.' && s@[k + 1] == '.'),
        decreases cs@.len() - i,
    {
        if cs[i] == '.' && cs[i + 1] == '.' {
            return true;
        }
        i += 1;
    }
    false
}

/// Scan from position `i`, cutting the text at every slash: `cur` is the
/// segment in progress, `acc` the completed segments.
pub open spec fn seg_scan(s: Seq<char>, i: int, cur: Seq<char>, acc: Seq<Seq<char>>) -> Seq<Seq<char>>
    decreases s.len() - i,
{
    if i < 0 || i >= s.len() {
        acc.push(cur)
    } else if s[i] == '/' {
        seg_scan(s, i + 1, Seq::empty(), acc.push(cur))
    } else {
        seg_scan(s, i + 1, cur.push(s[i]), acc)
    }
}

/// The slash-separated segments of `s`, empty segments included; a string
/// without slashes is one segment.
pub open spec fn split_slash(s: Seq<char>) -> Seq<Seq<char>> {
    seg_scan(s, 0, Seq::empty(), Seq::empty())
}

/// The path segments of a URL path: the slash-separated parts after the
/// leading slash, or nothing for a path that does not start with a slash.
pub open spec fn path_segments(p: Seq<char>) -> Option<Seq<Seq<char>>> {
    if p.len() >= 1 && p[0] == '/' {
        Some(split_slash(p.skip(1)))
    } else {
        None
    }
}

fn split_slash_exec(cs: &Vec<char>) -> (r: Vec<String>)
    ensures
        r.deep_view() == split_slash(cs@),
        r@.len() >= 1,
{
    let mut acc: Vec<String> = Vec::new();
    let mut cur = String::new();
    let mut i: usize = 0;
    proof {
        assert(acc.deep_view() =~~= Seq::<Seq<char>>::empty());
        assert(cur@ =~= Seq::<char>::empty());
    }
    while i < cs.len()
        invariant
            i <= cs@.len(),
            split_slash(cs@) == seg_scan(cs@, i as int, cur@, acc.deep_view()),
        decreases cs@.len() - i,
    {
        let c = cs[i];
        let ghost old_cur = cur@;
        let ghost old_acc = acc.deep_view();
        if c == '/' {
            acc.push(cur);
            assert(acc.deep_view() =~~= old_acc.push(old_cur));
            cur = String::new();
            assert(cur@ =~= Seq::<char>::empty());
        } else {
            push_char(&mut cur, c);
        }
        assert(seg_scan(cs@, i as int, old_cur, old_acc) == seg_scan(
            cs@,
            i + 1,
            cur@,
            acc.deep_view(),
        ));
        i += 1;
    }
    let ghost end_acc = acc.deep_view();
    let ghost end_cur = cur@;
    acc.push(cur);
    proof {
        assert(acc.deep_view() =~~= end_acc.push(end_cur));
    }
    acc
}

/// The characters of a string after the first one.
fn char_tail(cs: &Vec<char>) -> (r: Vec<char>)
    requires
        cs@.len() >= 1,
    ensures
        r@ == cs@.skip(1),
{
    let mut r: Vec<char> = Vec::new();
    let mut i: usize = 1;
    while i < cs.len()
        invariant
            1 <= i <= cs@.len(),
            r@ == cs@.subrange(1, i as int),
        decreases cs@.len() - i,
    {
        r.push(cs[i]);
        proof {
            assert(cs@.subrange(1, i + 1) =~= cs@.subrange(1, i as int).push(cs@[i as int]));
        }
        i += 1;
    }
    proof {
        assert(cs@.subrange(1, cs@.len() as int) =~= cs@.skip(1));
    }
    r
}

/// The segment with a trailing `.zip` removed; any other segment is
/// unchanged.
pub open spec fn spec_strip_zip(s: Seq<char>) -> Seq<char> {
    if s.len() >= 4 && s[s.len() - 4] == '.' && s[s.len() - 3] == 'z' && s[s.len() - 2] == 'i'
        && s[s.len() - 1] == 'p' {
        s.take(s.len() - 4)
    } else {
        s
    }
}

/// Whether the segment ends in `.zip`.
pub open spec fn spec_ends_zip(s: Seq<char>) -> bool {
    s.len() >= 4 && s[s.len() - 4] == '.' && s[s.len() - 3] == 'z' && s[s.len() - 2] == 'i' && s[
        s.len() - 1] == 'p'
}

fn strip_zip(seg: &String) -> (r: (String, bool))
    ensures
        r.0@ == spec_strip_zip(seg@),
        r.1 == spec_ends_zip(seg@),
{
    let cs = chars_of(seg.as_str());
    let n = cs.len();
    if n >= 4 && cs[n - 4] == '.' && cs[n - 3] == 'z' && cs[n - 2] == 'i' && cs[n - 1] == 'p' {
        let mut out = String::new();
        let mut i: usize = 0;
        while i < n - 4
            invariant
                i <= n - 4,
                4 <= n == cs@.len(),
                cs@ == seg@,
                out@ == seg@.take(i as int),
            decreases n - 4 - i,
        {
            push_char(&mut out, cs[i]);
            proof {
                assert(seg@.take(i + 1) =~= seg@.take(i as int).push(seg@[i as int]));
            }
            i += 1;
        }
        (out, true)
    } else {
        (seg.clone(), false)
    }
}

/// The failures of deriving an update request from a catalog location.
#[derive(Debug, Clone, Copy, PartialEq, Eq)]
pub enum ConfigError {
    /// The location does not parse as an absolute URL.
    InvalidUrl,
    /// The location parses, but its path does not name a zipped branch of a
    /// repository.
    InvalidStructure,
    /// The version response carries no string at `object.sha`.
    ShaNotFound,
}

impl ConfigError {
    /// The display message of this error.
    pub fn message(&self) -> (r: String)
        ensures
            self is InvalidUrl ==> r@ == "Invalid URL"@,
            self is InvalidStructure ==> r@ == "Invalid URL structure"@,
            self is ShaNotFound ==> r@ == "SHA value not found in JSON response"@,
    {
        match self {
            ConfigError::InvalidUrl => "Invalid URL".to_owned(),
            ConfigError::InvalidStructure => "Invalid URL structure".to_owned(),
            ConfigError::ShaNotFound => "SHA value not found in JSON response".to_owned(),
        }
    }
}

/// Whether a string is accepted as a catalog source location: it parses as
/// an absolute URL and its path holds no two consecutive dots.
pub open spec fn acceptable_url(s: Seq<char>) -> bool {
    url_parse_path(s) is Some && !has_dotdot(url_parse_path(s)->0)
}

/// The name of the local catalog directory for a location whose path has at
/// least six segments: the repository segment and the branch segment (with a
/// trailing `.zip` removed), joined by a hyphen, with `/lake/` appended.
pub open spec fn spec_lake_dir_name(u: Seq<char>) -> Option<Seq<char>> {
    if url_parse_path(u) is Some && path_segments(url_parse_path(u)->0) is Some {
        let segs = path_segments(url_parse_path(u)->0)->0;
        if segs.len() >= 6 {
            Some(segs[1] + "-"@ + spec_strip_zip(segs[5]) + "/lake/"@)
        } else {
            None
        }
    } else {
        None
    }
}

/// The version-lookup address for a catalog location: the repository hosting
/// service's reference endpoint for the owner, repository and branch named
/// by the location's path.  The path must name a zipped branch (a final
/// segment ending in `.zip`) inside a repository (at least two segments).
pub open spec fn spec_refs_api_url(u: Seq<char>) -> Result<Seq<char>, ConfigError> {
    if url_parse_path(u) is None {
        Err(ConfigError::InvalidUrl)
    } else if path_segments(url_parse_path(u)->0) is None {
        Err(ConfigError::InvalidStructure)
    } else {
        let segs = path_segments(url_parse_path(u)->0)->0;
        if !spec_ends_zip(segs.last()) || segs.len() < 2 {
            Err(ConfigError::InvalidStructure)
        } else {
            Ok(
                "https://api.github.com/repos/"@ + segs[0] + "/"@ + segs[1]
                    + "/git/refs/heads/"@ + spec_strip_zip(segs.last()),
            )
        }
    }
}

/// The catalog source configuration: where the catalog bundle is downloaded
/// from, and the content version marker it was last seen at.
pub struct Config {
    pub url: String,
    pub hash: String,
}

impl Config {
    /// A configuration from its two stored values.
    pub fn with_values(url: String, hash: String) -> (r: Config)
        ensures
            r.url@ == url@,
            r.hash@ == hash@,
    {
        Config { url, hash }
    }

    /// Replace the catalog location.  Callers must have checked the new
    /// location with `try_set_new_url`; an unchecked location is refused
    /// there rather than stored here.
    pub fn set_new_url(&mut self, in_url: String)
        requires
            acceptable_url(in_url@),
        ensures
            final(self).url@ == in_url@,
            final(self).hash@ == old(self).hash@,
    {
        self.url = in_url;
    }

    /// Replace the catalog location if it is acceptable: it must parse as an
    /// absolute URL whose path holds no two consecutive dots.  Returns
    /// whether the location was stored; an unacceptable location leaves the
    /// configuration unchanged.
    pub fn try_set_new_url(&mut self, in_url: String) -> (ok: bool)
        ensures
            ok == acceptable_url(in_url@),
            ok ==> final(self).url@ == in_url@ && final(self).hash@ == old(self).hash@,
            !ok ==> *final(self) == *old(self),
    {
        let valid = match parse_url_path(in_url.as_str()) {
            Some(p) => !contains_dotdot(p.as_str()),
            None => false,
        };
        if valid {
            self.set_new_url(in_url);
            true
        } else {
            false
        }
    }

    /// The name of the local catalog directory for this configuration's
    /// location, if its path has the expected shape.
    pub fn lake_dir_name(&self) -> (r: Option<String>)
        ensures
            r is Some <==> spec_lake_dir_name(self.url@) is Some,
            r is Some ==> r->0@ == spec_lake_dir_name(self.url@)->0,
    {
        let p = match parse_url_path(self.url.as_str()) {
            Some(p) => p,
            None => {
                return None;
            },
        };
        let cs = chars_of(p.as_str());
        if cs.len() == 0 || cs[0] != '/' {
            return None;
        }
        let segs = split_slash_exec(&char_tail(&cs));
        if segs.len() < 6 {
            return None;
        }
        let (branch, _) = strip_zip(&segs[5]);
        let mut out = segs[1].clone();
        out.append("-");
        out.append(branch.as_str());
        out.append("/lake/");
        proof {
            assert(out@ =~= spec_lake_dir_name(self.url@)->0);
        }
        Some(out)
    }

    /// The version-lookup address for a catalog location.  A location whose
    /// path does not start with a slash is refused as structurally invalid
    /// (the catalog publisher never serves one).
    pub fn git_refs_api_url(in_url: &String) -> (r: Result<String, ConfigError>)
        ensures
            r is Ok <==> spec_refs_api_url(in_url@) is Ok,
            r is Ok ==> r->Ok_0@ == spec_refs_api_url(in_url@)->Ok_0,
            r is Err ==> r->Err_0 == spec_refs_api_url(in_url@)->Err_0,
    {
        let p = match parse_url_path(in_url.as_str()) {
            Some(p) => p,
            None => {
                return Err(ConfigError::InvalidUrl);
            },
        };
        let cs = chars_of(p.as_str());
        if cs.len() == 0 || cs[0] != '/' {
            return Err(ConfigError::InvalidStructure);
        }
        let segs = split_slash_exec(&char_tail(&cs));
        let (branch, ends_zip) = strip_zip(&segs[segs.len() - 1]);
        if !ends_zip || segs.len() < 2 {
            return Err(ConfigError::InvalidStructure);
        }
        let mut out = String::new();
        out.append("https://api.github.com/repos/");
        out.append(segs[0].as_str());
        out.append("/");
        out.append(segs[1].as_str());
        out.append("/git/refs/heads/");
        out.append(branch.as_str());
        proof {
            assert(out@ =~= spec_refs_api_url(in_url@)->Ok_0);
        }
        Ok(out)
    }

    /// The content version carried by a version-lookup response: the string
    /// at `object.sha`, or an error when the body holds none.
    pub fn sha_from_ref_body(body: &str) -> (r: Result<String, ConfigError>)
        ensures
            r is Ok <==> git_ref_sha(body@) is Some,
            r is Ok ==> r->Ok_0@ == git_ref_sha(body@)->0,
            r is Err ==> r->Err_0 == ConfigError::ShaNotFound,
    {
        match extract_ref_sha(body) {
            Some(sha) => Ok(sha),
            None => Err(ConfigError::ShaNotFound),
        }
    }
}

} // verus!
