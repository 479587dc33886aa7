//! Which page a path names.
use crate::text::chars_of;
use crate::text::equals_text;
use vstd::prelude::*;

verus! {

/// The pages of the site.
#[derive(Clone, Copy, Debug, PartialEq, Eq, Structural)]
pub enum Page {
    Home,
    Publications,
    Code,
    Info,
    Lab,
    Resources,
    Meet,
}

/// The routes: the root, and `/:pagename`.
#[derive(Clone, Debug)]
pub enum Route {
    Home,
    Director { pagename: String },
}

/// The page that a page name selects; an unknown name selects the home page.
pub open spec fn page_of(name: Seq<char>) -> Page {
    if name == "pub"@ {
        Page::Publications
    } else if name == "code"@ {
        Page::Code
    } else if name == "info"@ {
        Page::Info
    } else if name == "gaim"@ {
        Page::Lab
    } else if name == "res"@ {
        Page::Resources
    } else if name == "meet"@ {
        Page::Meet
    } else {
        Page::Home
    }
}

/// Selects the page for `/:pagename`.
#[allow(non_snake_case)]
pub fn Director(pagename: &str) -> (r: Page)
    ensures
        r == page_of(pagename@),
{
    let name = chars_of(pagename);
    if equals_text(&name, "pub") {
        Page::Publications
    } else if equals_text(&name, "code") {
        Page::Code
    } else if equals_text(&name, "info") {
        Page::Info
    } else if equals_text(&name, "gaim") {
        Page::Lab
    } else if equals_text(&name, "res") {
        Page::Resources
    } else if equals_text(&name, "meet") {
        Page::Meet
    } else {
        Page::Home
    }
}

/// The page that a route shows.
pub fn page_for(route: &Route) -> (r: Page)
    ensures
        r == match route {
            Route::Home => Page::Home,
            Route::Director { pagename } => page_of(pagename@),
        },
{
    match route {
        Route::Home => Page::Home,
        Route::Director { pagename } => Director(pagename.as_str()),
    }
}

} // verus!
