//! The table of contents, read from the legacy navigation document (NCX).
use crate::codec::{trim_text, trimmed};
use crate::error::{EpubError, ErrorView};
use crate::xml::{all_named, attr_of, child_named, XmlElement};
use vstd::prelude::*;

verus! {

/// An entry of the table of contents.
#[derive(Debug)]
pub struct TocItem {
    /// The label, without surrounding whitespace.
    pub text: String,
    /// The link, relative to the navigation document.
    pub href: String,
}

/// A [`TocItem`] in plain values.
pub struct TocItemView {
    pub text: Seq<char>,
    pub href: Seq<char>,
}

impl View for TocItem {
    type V = TocItemView;

    open spec fn view(&self) -> TocItemView {
        TocItemView { text: self.text@, href: self.href@ }
    }
}

/// The views of a sequence of entries.
pub open spec fn toc_views(v: Seq<TocItem>) -> Seq<TocItemView> {
    v.map_values(|x: TocItem| x@)
}

/// The namespace in which the navigation document's elements are looked up:
/// that of its root, or the empty one.
pub open spec fn ncx_ns(ncx: XmlElement) -> Seq<char> {
    match ncx.ns {
        Some(n) => n@,
        None => seq![],
    }
}

/// The entry that the navigation point `p` gives: the trimmed text of its
/// `navLabel`'s `text`, and the `src` of its `content`.
pub open spec fn toc_entry_of(p: XmlElement, ns: Seq<char>) -> Result<TocItemView, ErrorView> {
    match child_named(p, "content"@, Some(ns)) {
        None => Err(ErrorView::MissingElement("content"@)),
        Some(content) => match child_named(p, "navLabel"@, Some(ns)) {
            None => Err(ErrorView::MissingElement("navLabel"@)),
            Some(label) => match child_named(label, "text"@, Some(ns)) {
                None => Err(ErrorView::MissingElement("text"@)),
                Some(t) => match attr_of(content, "src"@) {
                    None => Err(ErrorView::MissingAttribute("src"@)),
                    Some(src) => Ok(TocItemView { text: trimmed(t.text@), href: src }),
                },
            },
        },
    }
}

/// The entries that the navigation points `s` give, in order; the first
/// malformed one fails.
pub open spec fn toc_entries_of(s: Seq<XmlElement>, ns: Seq<char>) -> Result<
    Seq<TocItemView>,
    ErrorView,
>
    decreases s.len(),
{
    if s.len() == 0 {
        Ok(seq![])
    } else {
        match toc_entries_of(s.drop_last(), ns) {
            Err(e) => Err(e),
            Ok(items) => match toc_entry_of(s.last(), ns) {
                Err(e) => Err(e),
                Ok(it) => Ok(items.push(it)),
            },
        }
    }
}

/// The `navPoint` children of the navigation document's `navMap`.
pub open spec fn nav_points(ncx: XmlElement) -> Option<Seq<XmlElement>> {
    match child_named(ncx, "navMap"@, Some(ncx_ns(ncx))) {
        None => None,
        Some(nav_map) => Some(all_named(nav_map.children@, "navPoint"@)),
    }
}

/// The table of contents that the navigation document `ncx` gives.
pub open spec fn toc_of(ncx: XmlElement) -> Result<Seq<TocItemView>, ErrorView> {
    match nav_points(ncx) {
        None => Err(ErrorView::MissingElement("navMap"@)),
        Some(points) => toc_entries_of(points, ncx_ns(ncx)),
    }
}

/// The entry that the navigation point `p` gives.
fn toc_entry(p: &XmlElement, ns: &str) -> (r: Result<TocItem, EpubError>)
    ensures
        match r {
            Ok(it) => toc_entry_of(*p, ns@) == Ok::<TocItemView, ErrorView>(it@),
            Err(e) => toc_entry_of(*p, ns@) == Err::<TocItemView, ErrorView>(e@),
        },
{
    let content = match p.child_index("content", Some(ns)) {
        None => return Err(EpubError::MissingElement("content".to_owned())),
        Some(i) => &p.children[i],
    };
    let label = match p.child_index("navLabel", Some(ns)) {
        None => return Err(EpubError::MissingElement("navLabel".to_owned())),
        Some(i) => &p.children[i],
    };
    let text_el = match label.child_index("text", Some(ns)) {
        None => return Err(EpubError::MissingElement("text".to_owned())),
        Some(i) => &label.children[i],
    };
    let text = trim_text(text_el.text.as_str());
    let href = match content.attr("src") {
        None => return Err(EpubError::MissingAttribute("src".to_owned())),
        Some(s) => s.clone(),
    };
    Ok(TocItem { text, href })
}

/// Reads the table of contents from the navigation document `ncx`: one
/// entry per `navPoint` child of its `navMap`, in document order. Nested
/// navigation points are not visited.
pub fn read_toc(ncx: &XmlElement) -> (r: Result<Vec<TocItem>, EpubError>)
    ensures
        match r {
            Ok(items) => toc_of(*ncx) == Ok::<Seq<TocItemView>, ErrorView>(toc_views(items@)),
            Err(e) => toc_of(*ncx) == Err::<Seq<TocItemView>, ErrorView>(e@),
        },
{
    let ns: String = match &ncx.ns {
        Some(n) => n.clone(),
        None => String::new(),
    };
    let nav_map = match ncx.child_index("navMap", Some(ns.as_str())) {
        None => return Err(EpubError::MissingElement("navMap".to_owned())),
        Some(i) => &ncx.children[i],
    };
    let children = &nav_map.children;
    let ghost nsv = ns@;
    let mut toc: Vec<TocItem> = Vec::new();
    let mut i: usize = 0;
    assert(toc_views(toc@) =~= seq![]);
    while i < children.len()
        invariant
            i <= children.len(),
            children == nav_map.children,
            nsv == ns@,
            nsv == ncx_ns(*ncx),
            nav_points(*ncx) == Some(all_named(children@, "navPoint"@)),
            toc_entries_of(all_named(children@.subrange(0, i as int), "navPoint"@), nsv) == Ok::<
                Seq<TocItemView>,
                ErrorView,
            >(toc_views(toc@)),
        decreases children.len() - i,
    {
        let ghost prefix = children@.subrange(0, i + 1);
        let ghost earlier = all_named(children@.subrange(0, i as int), "navPoint"@);
        assert(prefix.drop_last() =~= children@.subrange(0, i as int));
        assert(prefix.last() == children@[i as int]);
        let c = &children[i];
        if crate::xml::same_text(c.name.as_str(), "navPoint") {
            assert(all_named(prefix, "navPoint"@) == earlier.push(*c));
            assert(earlier.push(*c).drop_last() =~= earlier);
            match toc_entry(c, ns.as_str()) {
                Err(e) => {
                    assert(toc_entries_of(all_named(prefix, "navPoint"@), nsv) == Err::<
                        Seq<TocItemView>,
                        ErrorView,
                    >(e@));
                    proof {
                        lemma_toc_error_persists(children@, nsv, i as int + 1);
                    }
                    return Err(e);
                },
                Ok(it) => {
                    let ghost before = toc_views(toc@);
                    toc.push(it);
                    assert(toc_views(toc@) =~= before.push(it@));
                },
            }
        }
        i = i + 1;
    }
    assert(children@.subrange(0, children@.len() as int) =~= children@);
    Ok(toc)
}

/// Once the navigation points among the first `n` of `s` fail to give
/// entries, so do those among all of `s`.
proof fn lemma_toc_error_persists(s: Seq<XmlElement>, ns: Seq<char>, n: int)
    requires
        0 <= n <= s.len(),
        toc_entries_of(all_named(s.subrange(0, n), "navPoint"@), ns) is Err,
    ensures
        toc_entries_of(all_named(s, "navPoint"@), ns) == toc_entries_of(
            all_named(s.subrange(0, n), "navPoint"@),
            ns,
        ),
    decreases s.len() - n,
{
    if n < s.len() {
        let next = s.subrange(0, n + 1);
        let earlier = all_named(s.subrange(0, n), "navPoint"@);
        assert(next.drop_last() =~= s.subrange(0, n));
        assert(earlier.push(next.last()).drop_last() =~= earlier);
        lemma_toc_error_persists(s, ns, n + 1);
    } else {
        assert(s.subrange(0, n) =~= s);
    }
}

/// A table of contents has one entry per top-level navigation point, in
/// document order: the `k`-th entry is the one that the `k`-th `navPoint`
/// gives, its text the trimmed label and its link the `src` of its content.
pub proof fn lemma_toc_one_entry_per_nav_point(ncx: XmlElement)
    requires
        toc_of(ncx) is Ok,
    ensures
        nav_points(ncx) matches Some(points) && toc_of(ncx)->Ok_0.len() == points.len()
            && forall|k: int|
            0 <= k < points.len() ==> toc_entry_of(#[trigger] points[k], ncx_ns(ncx)) == Ok::<
                TocItemView,
                ErrorView,
            >(toc_of(ncx)->Ok_0[k]),
{
    let points = nav_points(ncx)->0;
    lemma_entries_match(points, ncx_ns(ncx));
}

proof fn lemma_entries_match(s: Seq<XmlElement>, ns: Seq<char>)
    requires
        toc_entries_of(s, ns) is Ok,
    ensures
        toc_entries_of(s, ns)->Ok_0.len() == s.len(),
        forall|k: int|
            0 <= k < s.len() ==> toc_entry_of(#[trigger] s[k], ns) == Ok::<TocItemView, ErrorView>(
                toc_entries_of(s, ns)->Ok_0[k],
            ),
    decreases s.len(),
{
    if s.len() > 0 {
        lemma_entries_match(s.drop_last(), ns);
        assert forall|k: int| 0 <= k < s.len() implies toc_entry_of(#[trigger] s[k], ns) == Ok::<
            TocItemView,
            ErrorView,
        >(toc_entries_of(s, ns)->Ok_0[k]) by {
            if k < s.len() - 1 {
                assert(s.drop_last()[k] == s[k]);
            }
        }
    }
}

/// An entry of the table of contents has a non-empty text where its label
/// holds a character that is not white space, and a non-empty link where
/// its content's `src` is not empty.
pub proof fn lemma_toc_entry_not_empty(p: XmlElement, ns: Seq<char>, i: int)
    requires
        toc_entry_of(p, ns) is Ok,
        ({
            let label = child_named(p, "navLabel"@, Some(ns))->0;
            let t = child_named(label, "text"@, Some(ns))->0;
            0 <= i < t.text@.len() && !crate::codec::is_white_space(t.text@[i])
        }),
    ensures
        toc_entry_of(p, ns)->Ok_0.text.len() > 0,
        attr_of(child_named(p, "content"@, Some(ns))->0, "src"@)->0.len() > 0 ==> toc_entry_of(
            p,
            ns,
        )->Ok_0.href.len() > 0,
{
    let label = child_named(p, "navLabel"@, Some(ns))->0;
    let t = child_named(label, "text"@, Some(ns))->0;
    crate::codec::lemma_trimmed_not_empty(t.text@, i);
}

} // verus!
