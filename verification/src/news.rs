//! News articles and the form a news submission arrives in, with its
//! validation rules.

use vstd::prelude::*;

verus! {

/// A news article as stored.
#[derive(Debug)]
pub struct NewsItem {
    pub id: Option<i64>,
    pub title: String,
    pub url: Option<String>,
    pub notes: Option<String>,
    pub hidden: bool,
}

impl NewsItem {
    /// The blank article an editor starts from.
    pub fn for_create() -> (r: Self)
        ensures
            r.id is None,
            r.title@ == Seq::<char>::empty(),
            r.url is None,
            r.notes is None,
            r.hidden == false,
    {
        let r = NewsItem {
            id: None,
            title: String::new(),
            url: None,
            notes: None,
            hidden: false,
        };
        r
    }
}

impl NewsItem {
    /// The article a submitted form stands for: a missing title becomes
    /// empty, a missing hidden flag means visible.
    pub fn from_form(form: NewsForm) -> (r: Self)
        ensures
            r.id == form.id,
            r.title@ == match form.title {
                Some(t) => t@,
                None => Seq::<char>::empty(),
            },
            r.url == form.url,
            r.notes == form.notes,
            r.hidden == (form.hidden matches Some(h) && h),
    {
        let title = match form.title {
            Some(t) => t,
            None => String::new(),
        };
        let hidden = match form.hidden {
            Some(h) => h,
            None => false,
        };
        NewsItem { id: form.id, title, url: form.url, notes: form.notes, hidden }
    }
}

/// A submitted news form; every field is optional until validated.
#[derive(Debug)]
pub struct NewsForm {
    pub id: Option<i64>,
    pub title: Option<String>,
    pub url: Option<String>,
    pub notes: Option<String>,
    pub hidden: Option<bool>,
    pub action: Option<String>,
}

/// The outcome of parsing a text as a URI: `None` when it parses, or the
/// parser's error text.  The outcome depends on the text alone.
pub uninterp spec fn uri_check(s: Seq<char>) -> Option<Seq<char>>;

/// Relies on http's `Uri` `FromStr` implementation, a deterministic
/// parser: acceptance, and the display text of a rejection, are functions
/// of the input text alone.
#[verifier::external_body]
fn parse_uri_error(s: &str) -> (r: Option<String>)
    ensures
        r is Some <==> uri_check(s@) is Some,
        r matches Some(t) ==> uri_check(s@) == Some(t@),
{
    match <http::Uri as core::str::FromStr>::from_str(s) {
        Ok(_) => None,
        Err(e) => Some(format!("{e}")),
    }
}

/// The complaint about the form's title, if any.
pub open spec fn title_error(form: NewsForm) -> Option<Seq<char>> {
    match form.title {
        Some(t) => if t@.len() == 0 {
            Some("A title is required"@)
        } else {
            None
        },
        None => Some("A title is required for each news article"@),
    }
}

/// The complaint about the form's location, if any.
pub open spec fn url_error(form: NewsForm) -> Option<Seq<char>> {
    match form.url {
        Some(u) => if u@.len() == 0 {
            Some("A location for news article is required"@)
        } else {
            match uri_check(u@) {
                Some(e) => Some("The provided location is invalid '"@ + e + "'"@),
                None => None,
            }
        },
        None => Some("A location for news article is required"@),
    }
}

/// All complaints about the form, title first.
pub open spec fn validation_errors(form: NewsForm) -> Seq<Seq<char>> {
    (match title_error(form) {
        Some(t) => seq![t],
        None => Seq::empty(),
    }) + (match url_error(form) {
        Some(u) => seq![u],
        None => Seq::empty(),
    })
}

impl NewsForm {
    /// Check the form: a non-empty title and a parseable non-empty
    /// location are required.  Returns `None` when the form is valid and
    /// the list of complaints otherwise.
    pub fn validate(&self) -> (r: Option<Vec<String>>)
        ensures
            r is None <==> validation_errors(*self).len() == 0,
            r matches Some(v) ==> v@.map_values(|s: String| s@) == validation_errors(*self),
    {
        let mut result: Vec<String> = Vec::new();
        match &self.title {
            Some(t) => {
                if t.as_str().is_empty() {
                    result.push("A title is required".to_owned());
                }
            },
            None => {
                result.push("A title is required for each news article".to_owned());
            },
        }
        let ghost after_title = result@;
        match &self.url {
            Some(u) => {
                if u.as_str().is_empty() {
                    result.push("A location for news article is required".to_owned());
                } else {
                    match parse_uri_error(u.as_str()) {
                        Some(e) => {
                            let mut msg = "The provided location is invalid '".to_owned();
                            msg.append(e.as_str());
                            msg.append("'");
                            result.push(msg);
                        },
                        None => {},
                    }
                }
            },
            None => {
                result.push("A location for news article is required".to_owned());
            },
        }
        proof {
            assert(result@.map_values(|s: String| s@) =~= validation_errors(*self));
        }
        if result.len() == 0 {
            None
        } else {
            let r = Some(result);
            r
        }
    }
}

} // verus!
