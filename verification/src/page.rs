use vstd::prelude::*;

verus! {

/// The plain-value model of a page: its title, the link targets found in
/// its text, and the page it redirects to, if any.
pub struct PageView {
    pub name: Seq<char>,
    pub tags: Seq<Seq<char>>,
    pub redirect: Option<Seq<char>>,
}

/// The views of a sequence of strings.
pub open spec fn strings_view(v: Seq<String>) -> Seq<Seq<char>> {
    v.map_values(|s: String| s@)
}

/// A wiki page: its title, the titles it links to, and an optional redirect.
pub struct Page {
    pub name: String,
    pub tags: Vec<String>,
    pub redirect: Option<String>,
}

impl View for Page {
    type V = PageView;

    open spec fn view(&self) -> PageView {
        PageView {
            name: self.name@,
            tags: strings_view(self.tags@),
            redirect: match self.redirect {
                Some(r) => Some(r@),
                None => None,
            },
        }
    }
}

impl Page {
    /// Builds a page from all of its parts.
    pub fn create(name: String, tags: Vec<String>, redirect: Option<String>) -> (page: Self)
        ensures
            page.name == name,
            page.tags == tags,
            page.redirect == redirect,
    {
        Page { name, tags, redirect }
    }

    /// Builds a page that redirects nowhere.
    pub fn new(name: String, tags: Vec<String>) -> (page: Self)
        ensures
            page.name == name,
            page.tags == tags,
            page.redirect.is_none(),
    {
        Self::create(name, tags, None)
    }

    /// Builds a page without links that redirects to `redirect`.
    pub fn redirect(name: String, redirect: String) -> (page: Self)
        ensures
            page.name == name,
            page.tags@.len() == 0,
            page.redirect == Some(redirect),
    {
        Self::create(name, Vec::new(), Some(redirect))
    }
}

} // verus!
