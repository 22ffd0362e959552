use vstd::prelude::*;

verus! {

/// An external link attached to a project, shown either as a small image or
/// as a FontAwesome icon.
#[derive(Clone, Debug)]
pub enum LinkIcon {
    Image(String),
    FontAwesome(String),
}

/// A hyperlink attached to a project.
#[derive(Clone, Debug)]
pub struct Link {
    pub url: String,
    pub icon: LinkIcon,
}

pub ghost enum LinkIconView {
    Image(Seq<char>),
    FontAwesome(Seq<char>),
}

pub ghost struct LinkView {
    pub url: Seq<char>,
    pub icon: LinkIconView,
}

impl View for LinkIcon {
    type V = LinkIconView;

    open spec fn view(&self) -> LinkIconView {
        match self {
            LinkIcon::Image(s) => LinkIconView::Image(s@),
            LinkIcon::FontAwesome(s) => LinkIconView::FontAwesome(s@),
        }
    }
}

impl View for Link {
    type V = LinkView;

    open spec fn view(&self) -> LinkView {
        LinkView { url: self.url@, icon: self.icon@ }
    }
}

} // verus!
