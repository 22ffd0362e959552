use vstd::prelude::*;
use vstd::string::*;
use crate::image::{Image, ImageView};
use crate::link::{Link, LinkIconView, LinkView};

verus! {

broadcast use vstd::std_specs::vec::group_vec_axioms;

/// One portfolio entry: a named project with a description, a gallery of
/// images and a list of links. `id` is the identity under which the record
/// is stored; the persistence layer maps it to its own key type.
#[derive(Clone)]
pub struct Project {
    pub id: u64,
    pub name: String,
    pub description: String,
    pub images: Vec<Image>,
    pub links: Vec<Link>,
}

pub ghost struct ProjectView {
    pub id: u64,
    pub name: Seq<char>,
    pub description: Seq<char>,
    pub images: Seq<ImageView>,
    pub links: Seq<LinkView>,
}

impl View for Project {
    type V = ProjectView;

    open spec fn view(&self) -> ProjectView {
        ProjectView {
            id: self.id,
            name: self.name@,
            description: self.description@,
            images: self.images@.map_values(|i: Image| i@),
            links: self.links@.map_values(|l: Link| l@),
        }
    }
}

impl PartialEq for Project {
    fn eq(&self, other: &Self) -> (r: bool) {
        self.id == other.id && self.name == other.name
    }
}

impl vstd::std_specs::cmp::PartialEqSpecImpl for Project {
    open spec fn obeys_eq_spec() -> bool {
        true
    }

    open spec fn eq_spec(&self, other: &Project) -> bool {
        self.id == other.id && self.name@ == other.name@
    }
}

impl Project {
    /// A freshly created project under the given identity, with the default
    /// name, no description, and empty image and link collections.
    pub fn new(id: u64) -> (r: Self)
        ensures
            r@ == (ProjectView {
                id: id,
                name: "New Project"@,
                description: ""@,
                images: Seq::<ImageView>::empty(),
                links: Seq::<LinkView>::empty(),
            }),
    {
        let r = Self {
            id,
            name: String::from_str("New Project"),
            description: String::from_str(""),
            images: Vec::new(),
            links: Vec::new(),
        };
        proof {
            assert(r@.images =~= Seq::<ImageView>::empty());
            assert(r@.links =~= Seq::<LinkView>::empty());
        }
        r
    }
}

/// A document value as handed to the persistence layer: the library builds
/// the update document as plain data, and the unverified shell translates it
/// one-to-one into the database driver's own document type.
pub enum BsonValue {
    Text(String),
    Array(Vec<BsonValue>),
    Table(Vec<(String, BsonValue)>),
}

pub ghost enum BsonView {
    Text(Seq<char>),
    Array(Seq<BsonView>),
    Table(Seq<(Seq<char>, BsonView)>),
}

pub open spec fn bson_view(b: BsonValue) -> BsonView
    decreases b,
    via bson_view_height
{
    match b {
        BsonValue::Text(s) => BsonView::Text(s@),
        BsonValue::Array(items) => BsonView::Array(array_view(items@)),
        BsonValue::Table(pairs) => BsonView::Table(table_view(pairs@)),
    }
}

pub open spec fn array_view(items: Seq<BsonValue>) -> Seq<BsonView>
    decreases items,
{
    if items.len() == 0 {
        Seq::empty()
    } else {
        seq![bson_view(items[0])] + array_view(items.subrange(1, items.len() as int))
    }
}

pub open spec fn table_view(pairs: Seq<(String, BsonValue)>) -> Seq<(Seq<char>, BsonView)>
    decreases pairs,
{
    if pairs.len() == 0 {
        Seq::empty()
    } else {
        seq![(pairs[0].0@, bson_view(pairs[0].1))] + table_view(
            pairs.subrange(1, pairs.len() as int),
        )
    }
}

pub proof fn lemma_array_view_is_map(items: Seq<BsonValue>)
    ensures
        array_view(items) == items.map_values(|b: BsonValue| bson_view(b)),
    decreases items.len(),
{
    if items.len() == 0 {
        assert(array_view(items) =~= items.map_values(|b: BsonValue| bson_view(b)));
    } else {
        lemma_array_view_is_map(items.subrange(1, items.len() as int));
        assert(array_view(items) =~= items.map_values(|b: BsonValue| bson_view(b)));
    }
}

pub proof fn lemma_table_view_is_map(pairs: Seq<(String, BsonValue)>)
    ensures
        table_view(pairs) == pairs.map_values(
            |kv: (String, BsonValue)| (kv.0@, bson_view(kv.1)),
        ),
    decreases pairs.len(),
{
    if pairs.len() == 0 {
        assert(table_view(pairs) =~= pairs.map_values(
            |kv: (String, BsonValue)| (kv.0@, bson_view(kv.1)),
        ));
    } else {
        lemma_table_view_is_map(pairs.subrange(1, pairs.len() as int));
        assert(table_view(pairs) =~= pairs.map_values(
            |kv: (String, BsonValue)| (kv.0@, bson_view(kv.1)),
        ));
    }
}

#[via_fn]
proof fn bson_view_height(b: BsonValue) {
    match b {
        BsonValue::Array(items) => {
            assert(decreases_to!(items => items@));
        },
        BsonValue::Table(pairs) => {
            assert(decreases_to!(pairs => pairs@));
        },
        _ => {},
    }
}

/// The document stored for one image: its display name and its data URL.
pub open spec fn image_doc(i: ImageView) -> BsonView {
    BsonView::Table(seq![("name"@, BsonView::Text(i.name)), ("data"@, BsonView::Text(i.data))])
}

/// The document stored for a link icon, tagged by its variant.
pub open spec fn icon_doc(icon: LinkIconView) -> BsonView {
    match icon {
        LinkIconView::Image(s) => BsonView::Table(seq![("Image"@, BsonView::Text(s))]),
        LinkIconView::FontAwesome(s) => BsonView::Table(
            seq![("FontAwesome"@, BsonView::Text(s))],
        ),
    }
}

/// The document stored for one link: its URL and its icon document.
pub open spec fn link_doc(l: LinkView) -> BsonView {
    BsonView::Table(seq![("url"@, BsonView::Text(l.url)), ("icon"@, icon_doc(l.icon))])
}

/// The update document for a whole project: name, description, and the
/// image and link collections, in that order. The identity is not part of
/// the document; it addresses the record instead.
pub open spec fn project_doc(p: ProjectView) -> Seq<(Seq<char>, BsonView)> {
    seq![
        ("name"@, BsonView::Text(p.name)),
        ("description"@, BsonView::Text(p.description)),
        ("images"@, BsonView::Array(p.images.map_values(|i: ImageView| image_doc(i)))),
        ("links"@, BsonView::Array(p.links.map_values(|l: LinkView| link_doc(l)))),
    ]
}

impl Project {
    /// Appends a blank link that will show an image icon; the URL and the
    /// icon's image address start empty, to be edited in place.
    pub fn add_image_link(&mut self)
        ensures
            final(self)@.links == old(self)@.links.push(
                (LinkView {
                    url: Seq::<char>::empty(),
                    icon: LinkIconView::Image(Seq::<char>::empty()),
                }),
            ),
            final(self)@.id == old(self)@.id,
            final(self)@.name == old(self)@.name,
            final(self)@.description == old(self)@.description,
            final(self)@.images == old(self)@.images,
    {
        self.links.push(
            Link { url: String::new(), icon: crate::link::LinkIcon::Image(String::new()) },
        );
        proof {
            assert(self@.links =~= old(self)@.links.push(
                (LinkView {
                    url: Seq::<char>::empty(),
                    icon: LinkIconView::Image(Seq::<char>::empty()),
                }),
            ));
        }
    }

    /// Appends a blank link that will show a FontAwesome icon.
    pub fn add_font_awesome_link(&mut self)
        ensures
            final(self)@.links == old(self)@.links.push(
                (LinkView {
                    url: Seq::<char>::empty(),
                    icon: LinkIconView::FontAwesome(Seq::<char>::empty()),
                }),
            ),
            final(self)@.id == old(self)@.id,
            final(self)@.name == old(self)@.name,
            final(self)@.description == old(self)@.description,
            final(self)@.images == old(self)@.images,
    {
        self.links.push(
            Link {
                url: String::new(),
                icon: crate::link::LinkIcon::FontAwesome(String::new()),
            },
        );
        proof {
            assert(self@.links =~= old(self)@.links.push(
                (LinkView {
                    url: Seq::<char>::empty(),
                    icon: LinkIconView::FontAwesome(Seq::<char>::empty()),
                }),
            ));
        }
    }

    /// Removes the link at `index`, as the link list's remove button does.
    pub fn remove_link(&mut self, index: usize)
        requires
            index < old(self)@.links.len(),
        ensures
            final(self)@.links == old(self)@.links.remove(index as int),
            final(self)@.id == old(self)@.id,
            final(self)@.name == old(self)@.name,
            final(self)@.description == old(self)@.description,
            final(self)@.images == old(self)@.images,
    {
        self.links.remove(index);
        proof {
            assert(self@.links =~= old(self)@.links.remove(index as int));
        }
    }

    /// Removes the image at `index`, as the gallery's remove button does.
    pub fn remove_image(&mut self, index: usize)
        requires
            index < old(self)@.images.len(),
        ensures
            final(self)@.images == old(self)@.images.remove(index as int),
            final(self)@.id == old(self)@.id,
            final(self)@.name == old(self)@.name,
            final(self)@.description == old(self)@.description,
            final(self)@.links == old(self)@.links,
    {
        self.images.remove(index);
        proof {
            assert(self@.images =~= old(self)@.images.remove(index as int));
        }
    }

    /// The update document for this project, as plain data.
    pub fn doc(&self) -> (d: Vec<(String, BsonValue)>)
        ensures
            table_view(d@) == project_doc(self@),
    {
        let mut images_arr: Vec<BsonValue> = Vec::new();
        let mut idx: usize = 0;
        while idx < self.images.len()
            invariant
                idx <= self.images@.len(),
                images_arr@.len() == idx,
                forall|k: int|
                    0 <= k < idx ==> bson_view(#[trigger] images_arr@[k]) == image_doc(
                        self.images@[k]@,
                    ),
            decreases self.images@.len() - idx,
        {
            let img = &self.images[idx];
            let mut t: Vec<(String, BsonValue)> = Vec::new();
            t.push((String::from_str("name"), BsonValue::Text(img.name.clone())));
            t.push((String::from_str("data"), BsonValue::Text(img.data.clone())));
            let entry = BsonValue::Table(t);
            proof {
                lemma_table_view_is_map(t@);
                assert(table_view(t@) =~= seq![
                    ("name"@, BsonView::Text(img.name@)),
                    ("data"@, BsonView::Text(img.data@)),
                ]);
                assert(bson_view(entry) == image_doc(self.images@[idx as int]@));
            }
            images_arr.push(entry);
            idx = idx + 1;
        }

        let mut links_arr: Vec<BsonValue> = Vec::new();
        let mut jdx: usize = 0;
        while jdx < self.links.len()
            invariant
                jdx <= self.links@.len(),
                links_arr@.len() == jdx,
                forall|k: int|
                    0 <= k < jdx ==> bson_view(#[trigger] links_arr@[k]) == link_doc(
                        self.links@[k]@,
                    ),
            decreases self.links@.len() - jdx,
        {
            let link = &self.links[jdx];
            let icon = match &link.icon {
                crate::link::LinkIcon::Image(s) => {
                    let mut it: Vec<(String, BsonValue)> = Vec::new();
                    it.push((String::from_str("Image"), BsonValue::Text(s.clone())));
                    let iv = BsonValue::Table(it);
                    proof {
                        lemma_table_view_is_map(it@);
                        assert(table_view(it@) =~= seq![("Image"@, BsonView::Text(s@))]);
                        assert(bson_view(iv) == icon_doc(link.icon@));
                    }
                    iv
                },
                crate::link::LinkIcon::FontAwesome(s) => {
                    let mut it: Vec<(String, BsonValue)> = Vec::new();
                    it.push((String::from_str("FontAwesome"), BsonValue::Text(s.clone())));
                    let iv = BsonValue::Table(it);
                    proof {
                        lemma_table_view_is_map(it@);
                        assert(table_view(it@) =~= seq![("FontAwesome"@, BsonView::Text(s@))]);
                        assert(bson_view(iv) == icon_doc(link.icon@));
                    }
                    iv
                },
            };
            let mut t: Vec<(String, BsonValue)> = Vec::new();
            t.push((String::from_str("url"), BsonValue::Text(link.url.clone())));
            t.push((String::from_str("icon"), icon));
            let entry = BsonValue::Table(t);
            proof {
                lemma_table_view_is_map(t@);
                assert(table_view(t@) =~= seq![
                    ("url"@, BsonView::Text(link.url@)),
                    ("icon"@, icon_doc(link.icon@)),
                ]);
                assert(bson_view(entry) == link_doc(self.links@[jdx as int]@));
            }
            links_arr.push(entry);
            jdx = jdx + 1;
        }

        let mut d: Vec<(String, BsonValue)> = Vec::new();
        d.push((String::from_str("name"), BsonValue::Text(self.name.clone())));
        d.push((String::from_str("description"), BsonValue::Text(self.description.clone())));
        let images_entry = BsonValue::Array(images_arr);
        proof {
            lemma_array_view_is_map(images_arr@);
            assert(array_view(images_arr@) =~= self@.images.map_values(
                |i: ImageView| image_doc(i),
            ));
        }
        d.push((String::from_str("images"), images_entry));
        let links_entry = BsonValue::Array(links_arr);
        proof {
            lemma_array_view_is_map(links_arr@);
            assert(array_view(links_arr@) =~= self@.links.map_values(
                |l: LinkView| link_doc(l),
            ));
        }
        d.push((String::from_str("links"), links_entry));
        proof {
            lemma_table_view_is_map(d@);
            assert(table_view(d@) =~= project_doc(self@));
        }
        d
    }
}

} // verus!
