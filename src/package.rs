//! The package model: the container document's pointer to the package
//! document, and the package document's manifest, spine and table of
//! contents location.
use crate::error::{EpubError, ErrorView};
use crate::paths::{resolve_path, resolved};
use crate::xml::{all_named, attr_of, child_named, descendant_named, XmlElement};
use vstd::prelude::*;

verus! {

/// A resource that the package declares.
pub struct ManifestItem {
    pub id: String,
    /// Relative to the package document.
    pub href: String,
    pub media_type: String,
}

/// A [`ManifestItem`] in plain values.
pub struct ManifestItemView {
    pub id: Seq<char>,
    pub href: Seq<char>,
    pub media_type: Seq<char>,
}

impl View for ManifestItem {
    type V = ManifestItemView;

    open spec fn view(&self) -> ManifestItemView {
        ManifestItemView { id: self.id@, href: self.href@, media_type: self.media_type@ }
    }
}

/// What the package document states.
pub struct Package {
    /// The declared resources, ids unique, in order of first declaration.
    pub manifest: Vec<ManifestItem>,
    /// The reading order, as manifest ids.
    pub spine: Vec<String>,
    /// The archive path of the navigation document.
    pub toc_path: String,
}

/// A [`Package`] in plain values.
pub struct PackageView {
    pub manifest: Seq<ManifestItemView>,
    pub spine: Seq<Seq<char>>,
    pub toc_path: Seq<char>,
}

impl View for Package {
    type V = PackageView;

    open spec fn view(&self) -> PackageView {
        PackageView {
            manifest: item_views(self.manifest@),
            spine: crate::paths::views(self.spine@),
            toc_path: self.toc_path@,
        }
    }
}

/// The views of a sequence of manifest items.
pub open spec fn item_views(v: Seq<ManifestItem>) -> Seq<ManifestItemView> {
    v.map_values(|x: ManifestItem| x@)
}

/// A result in plain values.
pub open spec fn result_view<T: View>(r: Result<T, EpubError>) -> Result<T::V, ErrorView> {
    match r {
        Ok(t) => Ok(t@),
        Err(e) => Err(e@),
    }
}

/// The index of the first item of `m` from `i` on whose id is `id`.
pub open spec fn id_index_from(m: Seq<ManifestItemView>, id: Seq<char>, i: int) -> Option<int>
    decreases m.len() - i,
{
    if i < 0 || i >= m.len() {
        None
    } else if m[i].id == id {
        Some(i)
    } else {
        id_index_from(m, id, i + 1)
    }
}

/// The index of the item of `m` whose id is `id`.
pub open spec fn id_index(m: Seq<ManifestItemView>, id: Seq<char>) -> Option<int> {
    id_index_from(m, id, 0)
}

/// `m` with `it` declared: it replaces the item of the same id, or comes last.
pub open spec fn with_item(m: Seq<ManifestItemView>, it: ManifestItemView) -> Seq<
    ManifestItemView,
> {
    match id_index(m, it.id) {
        Some(i) => m.update(i, it),
        None => m.push(it),
    }
}

/// The manifest that declaring `items` in order gives: the last declaration
/// of an id wins.
pub open spec fn manifest_of(items: Seq<ManifestItemView>) -> Seq<ManifestItemView>
    decreases items.len(),
{
    if items.len() == 0 {
        seq![]
    } else {
        with_item(manifest_of(items.drop_last()), items.last())
    }
}

/// The manifest item that an `item` element declares.
pub open spec fn item_of(e: XmlElement) -> Result<ManifestItemView, ErrorView> {
    match attr_of(e, "id"@) {
        None => Err(ErrorView::MissingAttribute("id"@)),
        Some(id) => match attr_of(e, "href"@) {
            None => Err(ErrorView::MissingAttribute("href"@)),
            Some(href) => match attr_of(e, "media-type"@) {
                None => Err(ErrorView::MissingAttribute("media-type"@)),
                Some(media_type) => Ok(ManifestItemView { id, href, media_type }),
            },
        },
    }
}

/// The items that the `item` elements `s` declare, in order; the first
/// malformed one fails.
pub open spec fn items_of(s: Seq<XmlElement>) -> Result<Seq<ManifestItemView>, ErrorView>
    decreases s.len(),
{
    if s.len() == 0 {
        Ok(seq![])
    } else {
        match items_of(s.drop_last()) {
            Err(e) => Err(e),
            Ok(items) => match item_of(s.last()) {
                Err(e) => Err(e),
                Ok(it) => Ok(items.push(it)),
            },
        }
    }
}

/// The reading order that the `itemref` elements `s` give, each `idref`
/// declared in `m`; the first that is not fails.
pub open spec fn spine_of(s: Seq<XmlElement>, m: Seq<ManifestItemView>) -> Result<
    Seq<Seq<char>>,
    ErrorView,
>
    decreases s.len(),
{
    if s.len() == 0 {
        Ok(seq![])
    } else {
        match spine_of(s.drop_last(), m) {
            Err(e) => Err(e),
            Ok(spine) => match attr_of(s.last(), "idref"@) {
                None => Err(ErrorView::MissingAttribute("idref"@)),
                Some(idref) => if id_index(m, idref) is Some {
                    Ok(spine.push(idref))
                } else {
                    Err(ErrorView::UnresolvedIdref(idref))
                },
            },
        }
    }
}

/// What the package document `opf`, stored at `opf_path`, states.
pub open spec fn package_of(opf: XmlElement, opf_path: Seq<char>) -> Result<PackageView, ErrorView> {
    match child_named(opf, "manifest"@, None) {
        None => Err(ErrorView::MissingElement("manifest"@)),
        Some(man_el) => match child_named(opf, "spine"@, None) {
            None => Err(ErrorView::MissingElement("spine"@)),
            Some(spine_el) => match items_of(all_named(man_el.children@, "item"@)) {
                Err(e) => Err(e),
                Ok(items) => {
                    let manifest = manifest_of(items);
                    match spine_of(all_named(spine_el.children@, "itemref"@), manifest) {
                        Err(e) => Err(e),
                        Ok(spine) => match attr_of(spine_el, "toc"@) {
                            None => Err(ErrorView::MissingAttribute("toc"@)),
                            Some(toc) => match id_index(manifest, toc) {
                                None => Err(ErrorView::UnresolvedIdref(toc)),
                                Some(i) => Ok(
                                    PackageView {
                                        manifest,
                                        spine,
                                        toc_path: resolved(manifest[i].href, opf_path),
                                    },
                                ),
                            },
                        },
                    }
                },
            },
        },
    }
}

/// The package document's path that the container document names: the
/// `full-path` of its first `rootfile` element.
pub open spec fn rootfile_of(container: XmlElement) -> Result<Seq<char>, ErrorView> {
    match descendant_named(container, "rootfile"@) {
        None => Err(ErrorView::MissingRootfile),
        Some(r) => match attr_of(r, "full-path"@) {
            None => Err(ErrorView::MissingAttribute("full-path"@)),
            Some(p) => Ok(p),
        },
    }
}

/// The number of `itemref` children of the first `spine` child of `opf`.
pub open spec fn itemref_count(opf: XmlElement) -> nat {
    match child_named(opf, "spine"@, None) {
        None => 0,
        Some(spine_el) => all_named(spine_el.children@, "itemref"@).len(),
    }
}

/// The index of the manifest item whose id is `id`.
pub fn find_item(m: &Vec<ManifestItem>, id: &str) -> (r: Option<usize>)
    ensures
        r matches Some(i) ==> i < m@.len() && id_index(item_views(m@), id@) == Some(i as int),
        r is None ==> id_index(item_views(m@), id@) is None,
{
    let ghost mv = item_views(m@);
    let mut i: usize = 0;
    while i < m.len()
        invariant
            i <= m.len(),
            mv == item_views(m@),
            id_index(mv, id@) == id_index_from(mv, id@, i as int),
        decreases m.len() - i,
    {
        if crate::xml::same_text(m[i].id.as_str(), id) {
            return Some(i);
        }
        i = i + 1;
    }
    None
}

/// The path of the package document that `container` names.
pub fn rootfile_path(container: &XmlElement) -> (r: Result<String, EpubError>)
    ensures
        result_view(r) == rootfile_of(*container),
{
    match container.descendant("rootfile") {
        None => Err(EpubError::MissingRootfile),
        Some(rootfile) => match rootfile.attr("full-path") {
            None => Err(EpubError::MissingAttribute("full-path".to_owned())),
            Some(p) => Ok(p.clone()),
        },
    }
}

/// The manifest item that the `item` element `e` declares.
fn manifest_item(e: &XmlElement) -> (r: Result<ManifestItem, EpubError>)
    ensures
        result_view(r) == item_of(*e),
{
    let id = match e.attr("id") {
        None => return Err(EpubError::MissingAttribute("id".to_owned())),
        Some(v) => v.clone(),
    };
    let href = match e.attr("href") {
        None => return Err(EpubError::MissingAttribute("href".to_owned())),
        Some(v) => v.clone(),
    };
    let media_type = match e.attr("media-type") {
        None => return Err(EpubError::MissingAttribute("media-type".to_owned())),
        Some(v) => v.clone(),
    };
    Ok(ManifestItem { id, href, media_type })
}

/// Builds the manifest from the `item` children of `man_el`.
fn build_manifest(man_el: &XmlElement) -> (r: Result<Vec<ManifestItem>, EpubError>)
    ensures
        match r {
            Ok(m) => items_of(all_named(man_el.children@, "item"@)) matches Ok(items)
                && item_views(m@) == manifest_of(items),
            Err(e) => items_of(all_named(man_el.children@, "item"@)) == Err::<
                Seq<ManifestItemView>,
                ErrorView,
            >(e@),
        },
{
    let children = &man_el.children;
    let mut manifest: Vec<ManifestItem> = Vec::new();
    let ghost mut items: Seq<ManifestItemView> = seq![];
    let mut i: usize = 0;
    while i < children.len()
        invariant
            i <= children.len(),
            children == man_el.children,
            items_of(all_named(children@.subrange(0, i as int), "item"@)) == Ok::<
                Seq<ManifestItemView>,
                ErrorView,
            >(items),
            item_views(manifest@) == manifest_of(items),
        decreases children.len() - i,
    {
        let ghost prefix = children@.subrange(0, i + 1);
        assert(prefix.drop_last() =~= children@.subrange(0, i as int));
        assert(prefix.last() == children@[i as int]);
        let c = &children[i];
        if crate::xml::same_text(c.name.as_str(), "item") {
            let it = match manifest_item(c) {
                Err(e) => {
                    assert(all_named(prefix, "item"@) == all_named(
                        children@.subrange(0, i as int),
                        "item"@,
                    ).push(*c));
                    let ghost earlier = all_named(children@.subrange(0, i as int), "item"@);
                    assert(earlier.push(*c).drop_last() =~= earlier);
                    assert(items_of(all_named(prefix, "item"@)) == Err::<
                        Seq<ManifestItemView>,
                        ErrorView,
                    >(e@));
                    proof {
                        lemma_items_of_error_persists(children@, "item"@, i as int + 1);
                    }
                    return Err(e);
                },
                Ok(it) => it,
            };
            let ghost m0 = item_views(manifest@);
            match find_item(&manifest, it.id.as_str()) {
                Some(k) => {
                    manifest.set(k, it);
                    assert(item_views(manifest@) =~= m0.update(k as int, it@));
                },
                None => {
                    manifest.push(it);
                    assert(item_views(manifest@) =~= m0.push(it@));
                },
            }
            proof {
                let earlier = all_named(children@.subrange(0, i as int), "item"@);
                assert(earlier.push(*c).drop_last() =~= earlier);
                assert(items.push(it@).drop_last() =~= items);
                items = items.push(it@);
            }
        }
        i = i + 1;
    }
    assert(children@.subrange(0, children@.len() as int) =~= children@);
    Ok(manifest)
}

/// Once the `item` elements among the first `n` of `s` fail to declare a
/// manifest, so do those among all of `s`.
proof fn lemma_items_of_error_persists(s: Seq<XmlElement>, name: Seq<char>, n: int)
    requires
        0 <= n <= s.len(),
        items_of(all_named(s.subrange(0, n), name)) is Err,
    ensures
        items_of(all_named(s, name)) == items_of(all_named(s.subrange(0, n), name)),
    decreases s.len() - n,
{
    if n < s.len() {
        let next = s.subrange(0, n + 1);
        let earlier = all_named(s.subrange(0, n), name);
        assert(next.drop_last() =~= s.subrange(0, n));
        assert(earlier.push(next.last()).drop_last() =~= earlier);
        lemma_items_of_error_persists(s, name, n + 1);
    } else {
        assert(s.subrange(0, n) =~= s);
    }
}

/// Builds the reading order from the `itemref` children of `spine_el`.
fn build_spine(spine_el: &XmlElement, manifest: &Vec<ManifestItem>) -> (r: Result<
    Vec<String>,
    EpubError,
>)
    ensures
        match r {
            Ok(sp) => spine_of(all_named(spine_el.children@, "itemref"@), item_views(manifest@))
                == Ok::<Seq<Seq<char>>, ErrorView>(crate::paths::views(sp@)) && forall|k: int|
                0 <= k < sp@.len() ==> id_index(item_views(manifest@), #[trigger] sp@[k]@) is Some,
            Err(e) => spine_of(all_named(spine_el.children@, "itemref"@), item_views(manifest@))
                == Err::<Seq<Seq<char>>, ErrorView>(e@),
        },
{
    let children = &spine_el.children;
    let ghost m = item_views(manifest@);
    let mut spine: Vec<String> = Vec::new();
    let mut i: usize = 0;
    assert(crate::paths::views(spine@) =~= seq![]);
    while i < children.len()
        invariant
            i <= children.len(),
            children == spine_el.children,
            m == item_views(manifest@),
            spine_of(all_named(children@.subrange(0, i as int), "itemref"@), m) == Ok::<
                Seq<Seq<char>>,
                ErrorView,
            >(crate::paths::views(spine@)),
            forall|k: int| 0 <= k < spine@.len() ==> id_index(m, #[trigger] spine@[k]@) is Some,
        decreases children.len() - i,
    {
        let ghost prefix = children@.subrange(0, i + 1);
        let ghost earlier = all_named(children@.subrange(0, i as int), "itemref"@);
        assert(prefix.drop_last() =~= children@.subrange(0, i as int));
        assert(prefix.last() == children@[i as int]);
        let c = &children[i];
        if crate::xml::same_text(c.name.as_str(), "itemref") {
            assert(all_named(prefix, "itemref"@) == earlier.push(*c));
            assert(earlier.push(*c).drop_last() =~= earlier);
            let idref = match c.attr("idref") {
                None => {
                    proof {
                        lemma_spine_of_error_persists(children@, m, i as int + 1);
                    }
                    return Err(EpubError::MissingAttribute("idref".to_owned()));
                },
                Some(v) => v,
            };
            if find_item(manifest, idref.as_str()).is_none() {
                proof {
                    lemma_spine_of_error_persists(children@, m, i as int + 1);
                }
                return Err(EpubError::UnresolvedIdref(idref.clone()));
            }
            let ghost before = crate::paths::views(spine@);
            spine.push(idref.clone());
            assert(crate::paths::views(spine@) =~= before.push(idref@));
        }
        i = i + 1;
    }
    assert(children@.subrange(0, children@.len() as int) =~= children@);
    Ok(spine)
}

/// Once the `itemref` elements among the first `n` of `s` fail to give a
/// reading order, so do those among all of `s`.
proof fn lemma_spine_of_error_persists(s: Seq<XmlElement>, m: Seq<ManifestItemView>, n: int)
    requires
        0 <= n <= s.len(),
        spine_of(all_named(s.subrange(0, n), "itemref"@), m) is Err,
    ensures
        spine_of(all_named(s, "itemref"@), m) == spine_of(all_named(s.subrange(0, n), "itemref"@), m),
    decreases s.len() - n,
{
    if n < s.len() {
        let next = s.subrange(0, n + 1);
        let earlier = all_named(s.subrange(0, n), "itemref"@);
        assert(next.drop_last() =~= s.subrange(0, n));
        assert(earlier.push(next.last()).drop_last() =~= earlier);
        lemma_spine_of_error_persists(s, m, n + 1);
    } else {
        assert(s.subrange(0, n) =~= s);
    }
}

/// Reads what the package document `opf`, stored at `opf_path`, states: its
/// manifest, its reading order (each entry declared in the manifest) and
/// the archive path of its navigation document.
pub fn parse_package(opf: &XmlElement, opf_path: &str) -> (r: Result<Package, EpubError>)
    ensures
        result_view(r) == package_of(*opf, opf_path@),
        r matches Ok(p) ==> forall|k: int|
            0 <= k < p.spine@.len() ==> id_index(item_views(p.manifest@), #[trigger] p.spine@[k]@)
                is Some,
{
    let man_i = match opf.child_index("manifest", None) {
        None => return Err(EpubError::MissingElement("manifest".to_owned())),
        Some(i) => i,
    };
    let spine_i = match opf.child_index("spine", None) {
        None => return Err(EpubError::MissingElement("spine".to_owned())),
        Some(i) => i,
    };
    let man_el = &opf.children[man_i];
    let spine_el = &opf.children[spine_i];
    let manifest = match build_manifest(man_el) {
        Err(e) => return Err(e),
        Ok(m) => m,
    };
    let spine = match build_spine(spine_el, &manifest) {
        Err(e) => return Err(e),
        Ok(s) => s,
    };
    let toc = match spine_el.attr("toc") {
        None => return Err(EpubError::MissingAttribute("toc".to_owned())),
        Some(t) => t,
    };
    let k = match find_item(&manifest, toc.as_str()) {
        None => return Err(EpubError::UnresolvedIdref(toc.clone())),
        Some(k) => k,
    };
    let toc_path = resolve_path(manifest[k].href.as_str(), opf_path);
    Ok(Package { manifest, spine, toc_path })
}

/// A reading order has one entry per `itemref` element.
pub proof fn lemma_spine_len(s: Seq<XmlElement>, m: Seq<ManifestItemView>)
    requires
        spine_of(s, m) is Ok,
    ensures
        spine_of(s, m)->Ok_0.len() == s.len(),
    decreases s.len(),
{
    if s.len() > 0 {
        lemma_spine_len(s.drop_last(), m);
    }
}

} // verus!
