//! The references to images and stylesheets that a document makes, which
//! rendering replaces with data URIs.
use crate::xml::{attr_of, element_at, opt_view, XmlElement};
use vstd::prelude::*;

verus! {

/// A reference from an element to a resource of the archive.
pub struct ResourceRef {
    /// The child indices that lead from the document's root to the element.
    pub path: Vec<usize>,
    /// The attribute that holds the reference.
    pub attr: String,
    /// The reference, relative to the document.
    pub href: String,
}

/// A [`ResourceRef`] in plain values.
pub struct ResourceRefView {
    pub path: Seq<usize>,
    pub attr: Seq<char>,
    pub href: Seq<char>,
}

impl View for ResourceRef {
    type V = ResourceRefView;

    open spec fn view(&self) -> ResourceRefView {
        ResourceRefView { path: self.path@, attr: self.attr@, href: self.href@ }
    }
}

/// The views of a sequence of references.
pub open spec fn ref_views(v: Seq<ResourceRef>) -> Seq<ResourceRefView> {
    v.map_values(|x: ResourceRef| x@)
}

/// The attribute through which an element named `name` refers to a
/// resource: `src` for `img`, `xlink:href` for `image`, `href` for `link`.
pub open spec fn resource_attr(name: Seq<char>) -> Option<Seq<char>> {
    if name == "img"@ {
        Some("src"@)
    } else if name == "image"@ {
        Some("xlink:href"@)
    } else if name == "link"@ {
        Some("href"@)
    } else {
        None
    }
}

/// The reference that `e` itself makes, found at `at`.
pub open spec fn own_ref(e: XmlElement, at: Seq<usize>) -> Seq<ResourceRefView> {
    match resource_attr(e.name@) {
        Some(a) => match attr_of(e, a) {
            Some(h) => seq![ResourceRefView { path: at, attr: a, href: h }],
            None => seq![],
        },
        None => seq![],
    }
}

/// The references that `e`, found at `at`, and its descendants make, each
/// element's after those of its descendants.
pub open spec fn refs_of(e: XmlElement, at: Seq<usize>) -> Seq<ResourceRefView>
    decreases e, e.children@.len() + 1,
{
    refs_of_children(e, at, e.children@.len() as int) + own_ref(e, at)
}

/// The references that the first `n` children of `e` (found at `at`) and
/// their descendants make.
pub open spec fn refs_of_children(e: XmlElement, at: Seq<usize>, n: int) -> Seq<ResourceRefView>
    decreases e, n,
{
    if n <= 0 || n > e.children@.len() {
        seq![]
    } else {
        refs_of_children(e, at, n - 1) + refs_of(e.children@[n - 1], at.push((n - 1) as usize))
    }
}

/// The attribute through which an element named `name` refers to a resource.
pub fn resource_attr_for(name: &str) -> (r: Option<&'static str>)
    ensures
        opt_view(r) == resource_attr(name@),
{
    if crate::xml::same_text(name, "img") {
        Some("src")
    } else if crate::xml::same_text(name, "image") {
        Some("xlink:href")
    } else if crate::xml::same_text(name, "link") {
        Some("href")
    } else {
        None
    }
}

fn copy_path(p: &Vec<usize>) -> (r: Vec<usize>)
    ensures
        r@ == p@,
{
    let mut r: Vec<usize> = Vec::new();
    let mut i: usize = 0;
    while i < p.len()
        invariant
            i <= p.len(),
            r@ == p@.subrange(0, i as int),
        decreases p.len() - i,
    {
        r.push(p[i]);
        assert(r@ =~= p@.subrange(0, i + 1));
        i = i + 1;
    }
    assert(p@.subrange(0, p@.len() as int) =~= p@);
    r
}

fn collect_refs(e: &XmlElement, at: &mut Vec<usize>, out: &mut Vec<ResourceRef>)
    ensures
        final(at)@ == old(at)@,
        ref_views(final(out)@) == ref_views(old(out)@) + refs_of(*e, old(at)@),
    decreases e,
{
    let ghost at0 = at@;
    let ghost out0 = ref_views(out@);
    let mut i: usize = 0;
    assert(out0 + refs_of_children(*e, at0, 0) =~= out0);
    while i < e.children.len()
        invariant
            i <= e.children.len(),
            at@ == at0,
            ref_views(out@) == out0 + refs_of_children(*e, at0, i as int),
        decreases e.children.len() - i,
    {
        let ghost before = ref_views(out@);
        at.push(i);
        collect_refs(&e.children[i], at, out);
        at.pop();
        assert(ref_views(out@) =~= out0 + refs_of_children(*e, at0, i + 1));
        i = i + 1;
    }
    let ghost before = ref_views(out@);
    match resource_attr_for(e.name.as_str()) {
        Some(a) => match e.attr(a) {
            Some(h) => {
                let r = ResourceRef { path: copy_path(at), attr: a.to_owned(), href: h.clone() };
                out.push(r);
                assert(ref_views(out@) =~= before + own_ref(*e, at0));
            },
            None => {
                assert(ref_views(out@) =~= before + own_ref(*e, at0));
            },
        },
        None => {
            assert(ref_views(out@) =~= before + own_ref(*e, at0));
        },
    }
}

/// The references to resources that the document `root` makes, each
/// element's after those of its descendants.
pub fn resource_refs(root: &XmlElement) -> (r: Vec<ResourceRef>)
    ensures
        ref_views(r@) == refs_of(*root, seq![]),
{
    let mut at: Vec<usize> = Vec::new();
    let mut out: Vec<ResourceRef> = Vec::new();
    collect_refs(root, &mut at, &mut out);
    assert(ref_views(out@) =~= refs_of(*root, seq![]));
    out
}

proof fn lemma_contains_concat<A>(a: Seq<A>, b: Seq<A>, x: A)
    requires
        a.contains(x) || b.contains(x),
    ensures
        (a + b).contains(x),
{
    if a.contains(x) {
        let j = choose|j: int| 0 <= j < a.len() && a[j] == x;
        assert((a + b)[j] == x);
    } else {
        let j = choose|j: int| 0 <= j < b.len() && b[j] == x;
        assert((a + b)[a.len() + j] == x);
    }
}

proof fn lemma_children_refs_contain(
    e: XmlElement,
    at: Seq<usize>,
    n: int,
    i: int,
    x: ResourceRefView,
)
    requires
        0 <= i < n <= e.children@.len(),
        refs_of(e.children@[i], at.push(i as usize)).contains(x),
    ensures
        refs_of_children(e, at, n).contains(x),
    decreases n,
{
    if i < n - 1 {
        lemma_children_refs_contain(e, at, n - 1, i, x);
    }
    lemma_contains_concat(
        refs_of_children(e, at, n - 1),
        refs_of(e.children@[n - 1], at.push((n - 1) as usize)),
        x,
    );
}

proof fn lemma_reference_collected_at(e: XmlElement, at: Seq<usize>, path: Seq<usize>)
    requires
        element_at(e, path) matches Some(el) && resource_attr(el.name@) matches Some(a) && attr_of(
            el,
            a,
        ) is Some,
    ensures
        ({
            let el = element_at(e, path)->0;
            let a = resource_attr(el.name@)->0;
            refs_of(e, at).contains(
                ResourceRefView { path: at + path, attr: a, href: attr_of(el, a)->0 },
            )
        }),
    decreases path.len(),
{
    let el = element_at(e, path)->0;
    let a = resource_attr(el.name@)->0;
    let x = ResourceRefView { path: at + path, attr: a, href: attr_of(el, a)->0 };
    let n = e.children@.len() as int;
    if path.len() == 0 {
        assert(at + path =~= at);
        assert(own_ref(e, at)[0] == x);
        lemma_contains_concat(refs_of_children(e, at, n), own_ref(e, at), x);
    } else {
        let i = path[0] as int;
        let c = e.children@[i];
        lemma_reference_collected_at(c, at.push(i as usize), path.drop_first());
        assert(at.push(i as usize) + path.drop_first() =~= at + path);
        lemma_children_refs_contain(e, at, n, i, x);
        lemma_contains_concat(refs_of_children(e, at, n), own_ref(e, at), x);
    }
}

/// Every element of a document that refers to a resource (an `img` through
/// `src`, an `image` through `xlink:href`, a `link` through `href`) is among
/// the document's references, with its path, that attribute and its value.
pub proof fn lemma_every_reference_collected(root: XmlElement, path: Seq<usize>)
    requires
        element_at(root, path) matches Some(el) && resource_attr(el.name@) matches Some(a)
            && attr_of(el, a) is Some,
    ensures
        ({
            let el = element_at(root, path)->0;
            let a = resource_attr(el.name@)->0;
            refs_of(root, seq![]).contains(
                ResourceRefView { path, attr: a, href: attr_of(el, a)->0 },
            )
        }),
{
    lemma_reference_collected_at(root, seq![], path);
    assert(seq![] + path =~= path);
}

/// `x`, a reference found in the subtree of `e` (at `at`), names an
/// attribute that the element at its path has, with its value.
pub open spec fn ref_points_into(e: XmlElement, at: Seq<usize>, x: ResourceRefView) -> bool {
    &&& x.path.len() >= at.len()
    &&& x.path.subrange(0, at.len() as int) == at
    &&& element_at(e, x.path.subrange(at.len() as int, x.path.len() as int)) matches Some(el)
        && attr_of(el, x.attr) == Some(x.href)
}

proof fn lemma_child_ref_points_into(e: XmlElement, at: Seq<usize>, i: int, x: ResourceRefView)
    requires
        0 <= i < e.children@.len(),
        ref_points_into(e.children@[i], at.push(i as usize), x),
    ensures
        ref_points_into(e, at, x),
{
    assert(e.children.len() == e.children@.len());
    let q = x.path.subrange(at.len() as int + 1, x.path.len() as int);
    let r = x.path.subrange(at.len() as int, x.path.len() as int);
    assert(at.push(i as usize).subrange(0, at.len() as int) =~= at);
    assert(x.path.subrange(0, at.len() as int) =~= x.path.subrange(0, at.len() as int + 1).subrange(
        0,
        at.len() as int,
    ));
    assert(r[0] == x.path[at.len() as int]);
    assert(x.path[at.len() as int] == x.path.subrange(0, at.len() as int + 1)[at.len() as int]);
    assert(r.drop_first() =~= q);
}

proof fn lemma_children_refs_point_into(e: XmlElement, at: Seq<usize>, n: int)
    ensures
        forall|j: int|
            0 <= j < refs_of_children(e, at, n).len() ==> ref_points_into(
                e,
                at,
                #[trigger] refs_of_children(e, at, n)[j],
            ),
    decreases e, n,
{
    if n > 0 && n <= e.children@.len() {
        let c = e.children@[n - 1];
        let a = refs_of_children(e, at, n - 1);
        let b = refs_of(c, at.push((n - 1) as usize));
        lemma_children_refs_point_into(e, at, n - 1);
        lemma_refs_point_into(c, at.push((n - 1) as usize));
        assert forall|j: int| 0 <= j < (a + b).len() implies ref_points_into(
            e,
            at,
            #[trigger] (a + b)[j],
        ) by {
            if j >= a.len() {
                assert((a + b)[j] == b[j - a.len()]);
                lemma_child_ref_points_into(e, at, n - 1, b[j - a.len()]);
            }
        }
    }
}

proof fn lemma_refs_point_into(e: XmlElement, at: Seq<usize>)
    ensures
        forall|j: int|
            0 <= j < refs_of(e, at).len() ==> ref_points_into(e, at, #[trigger] refs_of(e, at)[j]),
    decreases e, e.children@.len() + 1,
{
    let a = refs_of_children(e, at, e.children@.len() as int);
    let b = own_ref(e, at);
    lemma_children_refs_point_into(e, at, e.children@.len() as int);
    assert forall|j: int| 0 <= j < (a + b).len() implies ref_points_into(
        e,
        at,
        #[trigger] (a + b)[j],
    ) by {
        if j >= a.len() {
            let x = b[j - a.len()];
            assert((a + b)[j] == x);
            assert(x.path.subrange(0, at.len() as int) =~= at);
            assert(x.path.subrange(at.len() as int, x.path.len() as int) =~= seq![]);
        }
    }
}

/// Every reference that a document makes names an attribute that it has, at
/// the reference's path, with the reference as its value.
pub proof fn lemma_refs_are_attributes(root: XmlElement)
    ensures
        forall|j: int|
            0 <= j < refs_of(root, seq![]).len() ==> {
                let x = #[trigger] refs_of(root, seq![])[j];
                element_at(root, x.path) matches Some(el) && attr_of(el, x.attr) == Some(x.href)
            },
{
    lemma_refs_point_into(root, seq![]);
    assert forall|j: int| 0 <= j < refs_of(root, seq![]).len() implies {
        let x = #[trigger] refs_of(root, seq![])[j];
        element_at(root, x.path) matches Some(el) && attr_of(el, x.attr) == Some(x.href)
    } by {
        let x = refs_of(root, seq![])[j];
        assert(x.path.subrange(0, x.path.len() as int) =~= x.path);
    }
}

} // verus!
