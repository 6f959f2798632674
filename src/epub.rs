//! The navigation engine: an open publication with a cursor on the document
//! last rendered, and chapter retrieval by spine index, by link and relative
//! to the cursor.
use crate::archive::{archive_entries, open_archive, read_entry, zip_entries_of, Archive};
use crate::codec::{append_base64, base64_standard, join_url_path, url_path_of, utf8_string};
use crate::error::{EpubError, ErrorView};
use crate::inline::{lemma_every_reference_collected, lemma_refs_are_attributes, resource_attr, ref_views, refs_of, resource_refs, ResourceRef, ResourceRefView};
use crate::package::{
    find_item,
    id_index,
    item_views,
    itemref_count,
    items_of,
    lemma_spine_len,
    manifest_of,
    package_of,
    parse_package,
    rootfile_of,
    rootfile_path,
    ManifestItem,
    ManifestItemView,
    Package,
    PackageView,
};
use crate::paths::{resolve_path, resolved, views};
use crate::toc::{read_toc, toc_of, toc_views, TocItem, TocItemView};
use crate::xml::{
    all_named,
    attr_map,
    attr_of,
    element_at,
    child_named,
    dom_attrs,
    dom_frame,
    parse_document,
    parsed_frame,
    set_attr_at,
    write_document,
    written_form,
    xml_tree,
    AttrMap,
    XmlElement,
};
use vstd::prelude::*;
use crate::percent::{percent_decode, percent_decoded};
use vstd::utf8::{decode_utf8, is_ascii_chars, valid_utf8};

verus! {

/// The absolute URL against which links found in rendered documents are
/// parsed; only the path of the result is used.
pub const LINK_BASE: &'static str = "https://leedor.jreyes.org";

/// The archive path of the container document.
pub const CONTAINER_PATH: &'static str = "META-INF/container.xml";

/// An open publication.
pub struct Epub {
    /// The archive path of the document last rendered.
    current_path: String,
    manifest: Vec<ManifestItem>,
    /// The package document, as parsed.
    opf_doc: Ghost<XmlElement>,
    opf_path: String,
    spine: Vec<String>,
    toc_path: String,
    zip: Archive,
}

/// An [`Epub`] in plain values.
pub struct EpubView {
    pub current_path: Seq<char>,
    pub manifest: Seq<ManifestItemView>,
    pub opf_doc: XmlElement,
    pub opf_path: Seq<char>,
    pub spine: Seq<Seq<char>>,
    pub toc_path: Seq<char>,
    /// The archive's entries.
    pub entries: Map<Seq<char>, Seq<u8>>,
}

impl EpubView {
    /// This state with the cursor at `p`.
    pub open spec fn with_cursor(self, p: Seq<char>) -> EpubView {
        EpubView { current_path: p, ..self }
    }
}

impl View for Epub {
    type V = EpubView;

    closed spec fn view(&self) -> EpubView {
        EpubView {
            current_path: self.current_path@,
            manifest: item_views(self.manifest@),
            opf_doc: self.opf_doc@,
            opf_path: self.opf_path@,
            spine: views(self.spine@),
            toc_path: self.toc_path@,
            entries: archive_entries(self.zip),
        }
    }
}

/// The state of an open publication: the package document is what the
/// archive holds at `opf_path`; the manifest, spine and navigation document
/// are what it states; every spine entry is declared; and the cursor is on an
/// entry of the archive.
pub open spec fn well_formed(v: EpubView) -> bool {
    &&& v.entries.contains_key(v.opf_path)
    &&& xml_tree(v.entries[v.opf_path]) == Some(v.opf_doc)
    &&& package_of(v.opf_doc, v.opf_path) == Ok::<PackageView, ErrorView>(
        PackageView { manifest: v.manifest, spine: v.spine, toc_path: v.toc_path },
    )
    &&& forall|k: int| 0 <= k < v.spine.len() ==> id_index(v.manifest, #[trigger] v.spine[k]) is Some
    &&& v.entries.contains_key(v.current_path)
}

/// What opening the archive `bytes` gives: the package document's path, or
/// why it fails.
pub open spec fn load_result(bytes: Seq<u8>) -> Result<Seq<char>, ErrorView> {
    match zip_entries_of(bytes) {
        None => Err(ErrorView::Zip),
        Some(entries) => if !entries.contains_key(CONTAINER_PATH@) {
            Err(ErrorView::Zip)
        } else {
            match xml_tree(entries[CONTAINER_PATH@]) {
                None => Err(ErrorView::Xml),
                Some(container) => match rootfile_of(container) {
                    Err(e) => Err(e),
                    Ok(opf_path) => if !entries.contains_key(opf_path) {
                        Err(ErrorView::Zip)
                    } else {
                        match xml_tree(entries[opf_path]) {
                            None => Err(ErrorView::Xml),
                            Some(opf) => match package_of(opf, opf_path) {
                                Err(e) => Err(e),
                                Ok(_) => Ok(opf_path),
                            },
                        }
                    },
                },
            }
        },
    }
}

/// The archive path of the `i`-th document of the reading order.
pub open spec fn chapter_path(v: EpubView, i: int) -> Seq<char> {
    resolved(v.manifest[id_index(v.manifest, v.spine[i])->0].href, v.opf_path)
}

/// The first spine index from `i` on whose document is the cursor's.
pub open spec fn current_index_from(v: EpubView, i: int) -> Option<int>
    decreases v.spine.len() - i,
{
    if i < 0 || i >= v.spine.len() {
        None
    } else if chapter_path(v, i) == v.current_path {
        Some(i)
    } else {
        current_index_from(v, i + 1)
    }
}

/// The spine index of the cursor's document.
pub open spec fn current_index(v: EpubView) -> Option<int> {
    current_index_from(v, 0)
}

/// `p` without a leading `/`.
pub open spec fn without_leading_slash(p: Seq<char>) -> Seq<char> {
    if p.len() > 0 && p[0] == '/' {
        p.drop_first()
    } else {
        p
    }
}

/// The archive path that the link `href` designates from the document at
/// `anchor`: the path of the URL it denotes, percent-decoded, without the
/// leading `/`, resolved against `anchor`; none where `href` does not parse
/// or its decoded path is not UTF-8.
pub open spec fn link_target(href: Seq<char>, anchor: Seq<char>) -> Option<Seq<char>> {
    match url_path_of(LINK_BASE@, href) {
        Some(p) => if valid_utf8(percent_decoded(p)) {
            Some(resolved(without_leading_slash(decode_utf8(percent_decoded(p))), anchor))
        } else {
            None
        },
        None => None,
    }
}

/// The media type that the manifest declares for the archive path `path`:
/// that of the first item from the `i`-th on whose href resolves to it, or
/// the empty string.
pub open spec fn media_type_from(v: EpubView, path: Seq<char>, i: int) -> Seq<char>
    decreases v.manifest.len() - i,
{
    if i < 0 || i >= v.manifest.len() {
        seq![]
    } else if resolved(v.manifest[i].href, v.opf_path) == path {
        v.manifest[i].media_type
    } else {
        media_type_from(v, path, i + 1)
    }
}

/// The media type that the manifest declares for `path`.
pub open spec fn media_type_of(v: EpubView, path: Seq<char>) -> Seq<char> {
    media_type_from(v, path, 0)
}

/// The data URI that replaces the reference `href` made by the document at
/// `anchor`: the declared media type and the base64 encoding of the entry.
pub open spec fn data_uri(v: EpubView, href: Seq<char>, anchor: Seq<char>) -> Seq<char> {
    let target = resolved(href, anchor);
    "data:"@ + media_type_of(v, target) + ";base64,"@ + base64_standard(v.entries[target])
}


/// The spine index that `next_chapter` renders.
pub open spec fn next_index(v: EpubView) -> Option<int> {
    match current_index(v) {
        Some(i) => Some(i + 1),
        None => None,
    }
}

/// The spine index that `prev_chapter` renders: the one before the
/// cursor's, or the first again.
pub open spec fn prev_index(v: EpubView) -> Option<int> {
    match current_index(v) {
        Some(i) => Some(if i == 0 { 0 } else { i - 1 }),
        None => None,
    }
}

/// The path of the URL that `href` denotes relative to [`LINK_BASE`].
pub fn parse_relative_url(href: &str) -> (r: Result<String, EpubError>)
    ensures
        r is Ok <==> url_path_of(LINK_BASE@, href@) is Some,
        r matches Ok(p) ==> url_path_of(LINK_BASE@, href@) == Some(p@) && is_ascii_chars(p@),
        r matches Err(e) ==> e@ == ErrorView::Url,
{
    match join_url_path(LINK_BASE, href) {
        Ok(p) => Ok(p),
        Err(e) => Err(EpubError::Url(e)),
    }
}


/// Whether every reference of `refs`, made by the document at `anchor`,
/// designates an entry of the archive.
pub open spec fn all_readable(v: EpubView, refs: Seq<ResourceRefView>, anchor: Seq<char>) -> bool {
    forall|k: int|
        0 <= k < refs.len() ==> v.entries.contains_key(resolved(#[trigger] refs[k].href, anchor))
}

/// `attrs` with the attribute of each reference of `refs`, in order, set to
/// its data URI.
pub open spec fn inlined_from(
    attrs: AttrMap,
    refs: Seq<ResourceRefView>,
    v: EpubView,
    anchor: Seq<char>,
) -> AttrMap
    decreases refs.len(),
{
    if refs.len() == 0 {
        attrs
    } else {
        inlined_from(attrs, refs.drop_last(), v, anchor).insert(
            (refs.last().path, refs.last().attr),
            data_uri(v, refs.last().href, anchor),
        )
    }
}

/// The attribute values of the document `m`, at `anchor`, once every
/// reference to a resource is replaced by its data URI.
pub open spec fn inlined_attrs(v: EpubView, m: XmlElement, anchor: Seq<char>) -> AttrMap {
    inlined_from(attr_map(m), refs_of(m, seq![]), v, anchor)
}

/// The text of the document at `p` with its resources inlined, where it
/// can be rendered: the entry exists and parses, and every resource it
/// refers to exists.
pub open spec fn rendered(v: EpubView, p: Seq<char>) -> Option<Seq<char>> {
    if !v.entries.contains_key(p) {
        None
    } else {
        match xml_tree(v.entries[p]) {
            None => None,
            Some(m) => if !all_readable(v, refs_of(m, seq![]), p) {
                None
            } else {
                Some(
                    decode_utf8(written_form(parsed_frame(v.entries[p]), inlined_attrs(v, m, p))),
                )
            },
        }
    }
}

/// What reading the table of contents gives.
pub open spec fn toc_result(v: EpubView) -> Result<Seq<TocItemView>, ErrorView> {
    if !v.entries.contains_key(v.toc_path) {
        Err(ErrorView::Zip)
    } else {
        match xml_tree(v.entries[v.toc_path]) {
            None => Err(ErrorView::Xml),
            Some(ncx) => toc_of(ncx),
        }
    }
}

/// `p` without a leading `/`.
fn strip_leading_slash(p: &str) -> (r: String)
    ensures
        r@ == without_leading_slash(p@),
{
    let n = p.unicode_len();
    if n > 0 && p.get_char(0) == '/' {
        let rest = p.substring_char(1, n).to_owned();
        assert(rest@ =~= p@.drop_first());
        rest
    } else {
        p.to_owned()
    }
}

impl Epub {
    /// Whether this publication is in a consistent state.
    pub open spec fn wf(&self) -> bool {
        well_formed(self@)
    }

    /// Opens the publication held in `bytes`: reads the container document,
    /// the package document it names and what that states. The cursor
    /// starts on the package document.
    pub fn new(bytes: Vec<u8>) -> (r: Result<Epub, EpubError>)
        ensures
            r is Ok <==> load_result(bytes@) is Ok,
            r matches Err(x) ==> load_result(bytes@) == Err::<Seq<char>, ErrorView>(x@),
            r matches Ok(e) ==> {
                &&& e.wf()
                &&& zip_entries_of(bytes@) == Some(e@.entries)
                &&& load_result(bytes@) == Ok::<Seq<char>, ErrorView>(e@.opf_path)
                &&& e@.current_path == e@.opf_path
            },
    {
        let mut zip = match open_archive(bytes) {
            Err(e) => return Err(EpubError::Zip(e)),
            Ok(z) => z,
        };
        let ghost entries = archive_entries(zip);
        let container_bytes = match read_entry(&mut zip, CONTAINER_PATH) {
            Err(e) => return Err(EpubError::Zip(e)),
            Ok(b) => b,
        };
        let container = match parse_document(container_bytes.as_slice()) {
            Err(e) => return Err(EpubError::Xml(e)),
            Ok((_, m)) => m,
        };
        let opf_path = match rootfile_path(&container) {
            Err(e) => return Err(e),
            Ok(p) => p,
        };
        let opf_bytes = match read_entry(&mut zip, opf_path.as_str()) {
            Err(e) => return Err(EpubError::Zip(e)),
            Ok(b) => b,
        };
        let opf = match parse_document(opf_bytes.as_slice()) {
            Err(e) => return Err(EpubError::Xml(e)),
            Ok((_, m)) => m,
        };
        let package = match parse_package(&opf, opf_path.as_str()) {
            Err(e) => return Err(e),
            Ok(p) => p,
        };
        assert(archive_entries(zip) == entries);
        let Package { manifest, spine, toc_path } = package;
        Ok(
            Epub {
                current_path: opf_path.clone(),
                manifest,
                opf_doc: Ghost(opf),
                opf_path,
                spine,
                toc_path,
                zip,
            },
        )
    }

    /// The number of documents in the reading order.
    pub fn doc_count(&self) -> (r: Result<usize, EpubError>)
        ensures
            r matches Ok(n) && n == self@.spine.len(),
    {
        Ok(self.spine.len())
    }

    /// Renders the `item_idx`-th document of the reading order; its href is
    /// resolved against the package document.
    pub fn chapter(&mut self, item_idx: usize) -> (r: Result<String, EpubError>)
        requires
            old(self).wf(),
        ensures
            final(self).wf(),
            item_idx >= old(self)@.spine.len() ==> (r matches Err(e) && e@
                == ErrorView::IndexOutOfRange),
            r is Ok <==> item_idx < old(self)@.spine.len() && rendered(
                old(self)@,
                chapter_path(old(self)@, item_idx as int),
            ) is Some,
            r matches Ok(h) ==> rendered(old(self)@, chapter_path(old(self)@, item_idx as int))
                == Some(h@) && final(self)@ == old(self)@.with_cursor(
                chapter_path(old(self)@, item_idx as int),
            ),
            r is Err ==> final(self)@ == old(self)@,
    {
        if item_idx >= self.spine.len() {
            return Err(EpubError::IndexOutOfRange);
        }
        let k = match find_item(&self.manifest, self.spine[item_idx].as_str()) {
            None => return Err(EpubError::UnresolvedIdref(self.spine[item_idx].clone())),
            Some(k) => k,
        };
        let target = resolve_path(self.manifest[k].href.as_str(), self.opf_path.as_str());
        self.render(target)
    }

    /// Renders the document that the link `href` designates relative to the
    /// document at `relative_to`.
    fn current_chapter(&mut self, href: &str, relative_to: &str) -> (r: Result<String, EpubError>)
        requires
            old(self).wf(),
        ensures
            final(self).wf(),
            r is Ok <==> (link_target(href@, relative_to@) matches Some(t) && rendered(
                old(self)@,
                t,
            ) is Some),
            r matches Ok(h) ==> (link_target(href@, relative_to@) matches Some(t) && rendered(
                old(self)@,
                t,
            ) == Some(h@) && final(self)@ == old(self)@.with_cursor(t)),
            r is Err ==> final(self)@ == old(self)@,
    {
        let path = match parse_relative_url(href) {
            Err(e) => return Err(e),
            Ok(p) => p,
        };
        let decoded = match percent_decode(path.as_str()) {
            Err(e) => return Err(e),
            Ok(d) => d,
        };
        let relative = strip_leading_slash(decoded.as_str());
        let target = resolve_path(relative.as_str(), relative_to);
        self.render(target)
    }

    /// Renders the document that `link`, found in the document under the
    /// cursor, designates.
    pub fn chapter_by_link(&mut self, link: &str) -> (r: Result<String, EpubError>)
        requires
            old(self).wf(),
        ensures
            final(self).wf(),
            r is Ok <==> (link_target(link@, old(self)@.current_path) matches Some(t) && rendered(
                old(self)@,
                t,
            ) is Some),
            r matches Ok(h) ==> (link_target(link@, old(self)@.current_path) matches Some(t)
                && rendered(old(self)@, t) == Some(h@) && final(self)@ == old(
                self,
            )@.with_cursor(t)),
            r is Err ==> final(self)@ == old(self)@,
    {
        let anchor = self.current_path.clone();
        self.current_chapter(link, anchor.as_str())
    }

    /// Renders the document that `link`, an entry of the table of contents,
    /// designates relative to the navigation document.
    pub fn chapter_by_toc_link(&mut self, link: &str) -> (r: Result<String, EpubError>)
        requires
            old(self).wf(),
        ensures
            final(self).wf(),
            r is Ok <==> (link_target(link@, old(self)@.toc_path) matches Some(t) && rendered(
                old(self)@,
                t,
            ) is Some),
            r matches Ok(h) ==> (link_target(link@, old(self)@.toc_path) matches Some(t)
                && rendered(old(self)@, t) == Some(h@) && final(self)@ == old(
                self,
            )@.with_cursor(t)),
            r is Err ==> final(self)@ == old(self)@,
    {
        let anchor = self.toc_path.clone();
        self.current_chapter(link, anchor.as_str())
    }

    /// The spine index of the document under the cursor.
    fn current_idx(&self) -> (r: Result<usize, EpubError>)
        requires
            self.wf(),
        ensures
            r matches Ok(i) ==> i < self@.spine.len() && current_index(self@) == Some(i as int),
            r matches Err(e) ==> current_index(self@) is None && e@ == ErrorView::CurrentNotInSpine,
    {
        let mut i: usize = 0;
        while i < self.spine.len()
            invariant
                i <= self.spine.len(),
                self.wf(),
                current_index(self@) == current_index_from(self@, i as int),
            decreases self.spine.len() - i,
        {
            let k = match find_item(&self.manifest, self.spine[i].as_str()) {
                None => {
                    assert(id_index(self@.manifest, self@.spine[i as int]) is Some);
                    return Err(EpubError::CurrentNotInSpine);
                },
                Some(k) => k,
            };
            let path = resolve_path(self.manifest[k].href.as_str(), self.opf_path.as_str());
            if crate::xml::same_text(path.as_str(), self.current_path.as_str()) {
                return Ok(i);
            }
            i = i + 1;
        }
        Err(EpubError::CurrentNotInSpine)
    }

    /// Renders the document after the one under the cursor in the reading
    /// order. Past the last one it fails with `IndexOutOfRange`.
    pub fn next_chapter(&mut self) -> (r: Result<String, EpubError>)
        requires
            old(self).wf(),
        ensures
            final(self).wf(),
            next_index(old(self)@) is None ==> (r matches Err(e) && e@
                == ErrorView::CurrentNotInSpine),
            (next_index(old(self)@) matches Some(i) && i >= old(self)@.spine.len()) ==> (r matches Err(
                e,
            ) && e@ == ErrorView::IndexOutOfRange),
            r is Ok <==> (next_index(old(self)@) matches Some(i) && i < old(self)@.spine.len()
                && rendered(old(self)@, chapter_path(old(self)@, i)) is Some),
            r matches Ok(h) ==> (next_index(old(self)@) matches Some(i) && rendered(
                old(self)@,
                chapter_path(old(self)@, i),
            ) == Some(h@) && final(self)@ == old(self)@.with_cursor(chapter_path(old(self)@, i))),
            r is Err ==> final(self)@ == old(self)@,
    {
        let i = match self.current_idx() {
            Err(e) => return Err(e),
            Ok(i) => i,
        };
        let n = self.spine.len();
        assert(i < n);
        self.chapter(i + 1)
    }

    /// Renders the document before the one under the cursor in the reading
    /// order; at the first one, the first one again.
    pub fn prev_chapter(&mut self) -> (r: Result<String, EpubError>)
        requires
            old(self).wf(),
        ensures
            final(self).wf(),
            prev_index(old(self)@) is None ==> (r matches Err(e) && e@
                == ErrorView::CurrentNotInSpine),
            r is Ok <==> (prev_index(old(self)@) matches Some(i) && rendered(
                old(self)@,
                chapter_path(old(self)@, i),
            ) is Some),
            r matches Ok(h) ==> (prev_index(old(self)@) matches Some(i) && rendered(
                old(self)@,
                chapter_path(old(self)@, i),
            ) == Some(h@) && final(self)@ == old(self)@.with_cursor(chapter_path(old(self)@, i))),
            r is Err ==> final(self)@ == old(self)@,
    {
        let i = match self.current_idx() {
            Err(e) => return Err(e),
            Ok(i) => i,
        };
        self.chapter(if i == 0 { 0 } else { i - 1 })
    }

    /// Reads the table of contents from the navigation document. The cursor
    /// does not move.
    pub fn toc(&mut self) -> (r: Result<Vec<TocItem>, EpubError>)
        requires
            old(self).wf(),
        ensures
            final(self)@ == old(self)@,
            final(self).wf(),
            match r {
                Ok(items) => toc_result(old(self)@) == Ok::<Seq<TocItemView>, ErrorView>(
                    toc_views(items@),
                ),
                Err(e) => toc_result(old(self)@) == Err::<Seq<TocItemView>, ErrorView>(e@),
            },
    {
        let path = self.toc_path.clone();
        let read = read_entry(&mut self.zip, path.as_str());
        assert(self@ == old(self)@);
        let bytes = match read {
            Err(e) => return Err(EpubError::Zip(e)),
            Ok(b) => b,
        };
        let ncx = match parse_document(bytes.as_slice()) {
            Err(e) => return Err(EpubError::Xml(e)),
            Ok((_, m)) => m,
        };
        read_toc(&ncx)
    }

    /// The media type that the manifest declares for `path`, or the empty
    /// string.
    fn media_type(&self, path: &str) -> (r: String)
        ensures
            r@ == media_type_of(self@, path@),
    {
        let mut i: usize = 0;
        while i < self.manifest.len()
            invariant
                i <= self.manifest.len(),
                media_type_of(self@, path@) == media_type_from(self@, path@, i as int),
            decreases self.manifest.len() - i,
        {
            let item_path = resolve_path(self.manifest[i].href.as_str(), self.opf_path.as_str());
            if crate::xml::same_text(item_path.as_str(), path) {
                return self.manifest[i].media_type.clone();
            }
            i = i + 1;
        }
        String::new()
    }

    /// The data URIs that replace the references `refs` made by the
    /// document at `anchor`, one for each.
    fn inline_values(&mut self, refs: &Vec<ResourceRef>, anchor: &str) -> (r: Result<
        Vec<String>,
        EpubError,
    >)
        ensures
            final(self)@ == old(self)@,
            r is Ok <==> all_readable(old(self)@, ref_views(refs@), anchor@),
            r matches Ok(vs) ==> vs@.len() == refs@.len() && forall|k: int|
                0 <= k < refs@.len() ==> #[trigger] vs@[k]@ == data_uri(
                    old(self)@,
                    refs@[k].href@,
                    anchor@,
                ),
    {
        let ghost v0 = self@;
        let mut out: Vec<String> = Vec::new();
        let mut k: usize = 0;
        while k < refs.len()
            invariant
                k <= refs.len(),
                self@ == v0,
                v0 == old(self)@,
                out@.len() == k,
                forall|j: int|
                    0 <= j < k ==> #[trigger] out@[j]@ == data_uri(v0, refs@[j].href@, anchor@),
                forall|j: int|
                    0 <= j < k ==> v0.entries.contains_key(
                        resolved(#[trigger] refs@[j].href@, anchor@),
                    ),
            decreases refs.len() - k,
        {
            let target = resolve_path(refs[k].href.as_str(), anchor);
            let media_type = self.media_type(target.as_str());
            let read = read_entry(&mut self.zip, target.as_str());
            assert(self@ == v0);
            let bytes = match read {
                Err(e) => {
                    assert(ref_views(refs@)[k as int] == refs@[k as int]@);
                    assert(!all_readable(v0, ref_views(refs@), anchor@)) by {
                        assert(!v0.entries.contains_key(
                            resolved(ref_views(refs@)[k as int].href, anchor@),
                        ));
                    }
                    return Err(EpubError::Zip(e));
                },
                Ok(b) => b,
            };
            let mut value = "data:".to_owned();
            value.append(media_type.as_str());
            value.append(";base64,");
            append_base64(bytes.as_slice(), &mut value);
            out.push(value);
            k = k + 1;
        }
        assert forall|j: int| 0 <= j < ref_views(refs@).len() implies v0.entries.contains_key(
            resolved(#[trigger] ref_views(refs@)[j].href, anchor@),
        ) by {
            assert(ref_views(refs@)[j] == refs@[j]@);
        }
        Ok(out)
    }

    /// Replaces each reference to a resource that the document `dom` (at
    /// `anchor`, modelled by `model`) makes with the data URI of the entry it
    /// designates. A reference to an entry that cannot be read fails the
    /// whole document, which is then left as it was.
    fn inline_resources(
        &mut self,
        dom: &mut minidom::Element,
        model: &XmlElement,
        anchor: &str,
    ) -> (r: Result<(), EpubError>)
        requires
            dom_attrs(*old(dom)) == attr_map(*model),
        ensures
            final(self)@ == old(self)@,
            r is Ok <==> all_readable(old(self)@, refs_of(*model, seq![]), anchor@),
            r is Ok ==> dom_attrs(*final(dom)) == inlined_attrs(old(self)@, *model, anchor@),
            dom_frame(*final(dom)) == dom_frame(*old(dom)),
    {
        let refs = resource_refs(model);
        let values = match self.inline_values(&refs, anchor) {
            Err(e) => return Err(e),
            Ok(vs) => vs,
        };
        let ghost v0 = self@;
        let ghost rv = ref_views(refs@);
        let ghost base = attr_map(*model);
        proof {
            lemma_refs_are_attributes(*model);
        }
        let mut k: usize = 0;
        assert(rv.subrange(0, 0) =~= seq![]);
        while k < refs.len()
            invariant
                k <= refs.len(),
                values@.len() == refs@.len(),
                rv == ref_views(refs@),
                rv == refs_of(*model, seq![]),
                base == attr_map(*model),
                forall|j: int|
                    0 <= j < refs@.len() ==> #[trigger] values@[j]@ == data_uri(
                        v0,
                        refs@[j].href@,
                        anchor@,
                    ),
                forall|j: int|
                    0 <= j < rv.len() ==> {
                        let x = #[trigger] rv[j];
                        element_at_has(*model, x)
                    },
                dom_attrs(*dom) == inlined_from(base, rv.subrange(0, k as int), v0, anchor@),
                dom_frame(*dom) == dom_frame(*old(dom)),
            decreases refs.len() - k,
        {
            let ghost x = rv[k as int];
            assert(x == refs@[k as int]@);
            assert(element_at_has(*model, x));
            assert(base.contains_key((x.path, x.attr)));
            proof {
                lemma_inlined_keeps_keys(base, rv.subrange(0, k as int), v0, anchor@, (x.path, x.attr));
            }
            assert(refs@[k as int].path@.subrange(0, refs@[k as int].path@.len() as int)
                =~= refs@[k as int].path@);
            set_attr_at(dom, &refs[k].path, 0, refs[k].attr.as_str(), values[k].clone());
            assert(rv.subrange(0, k + 1).drop_last() =~= rv.subrange(0, k as int));
            k = k + 1;
        }
        assert(rv.subrange(0, rv.len() as int) =~= rv);
        Ok(())
    }

    /// Renders the document at `target` with its resources inlined, and
    /// moves the cursor there; on failure the cursor stays where it was.
    fn render(&mut self, target: String) -> (r: Result<String, EpubError>)
        requires
            old(self).wf(),
        ensures
            final(self).wf(),
            r is Ok <==> rendered(old(self)@, target@) is Some,
            r matches Ok(h) ==> rendered(old(self)@, target@) == Some(h@) && final(self)@ == old(
                self,
            )@.with_cursor(target@),
            r is Err ==> final(self)@ == old(self)@,
    {
        let read = read_entry(&mut self.zip, target.as_str());
        assert(self@ == old(self)@);
        let bytes = match read {
            Err(e) => return Err(EpubError::Zip(e)),
            Ok(b) => b,
        };
        let (mut dom, model) = match parse_document(bytes.as_slice()) {
            Err(e) => return Err(EpubError::Xml(e)),
            Ok(p) => p,
        };
        match self.inline_resources(&mut dom, &model, target.as_str()) {
            Err(e) => return Err(e),
            Ok(()) => {},
        }
        let out = match write_document(&dom) {
            Err(e) => return Err(EpubError::Xml(e)),
            Ok(o) => o,
        };
        let html = match utf8_string(out) {
            Err(e) => return Err(EpubError::Utf8(e)),
            Ok(h) => h,
        };
        self.current_path = target;
        Ok(html)
    }
}

/// The element at `x`'s path has `x`'s attribute, with `x`'s reference.
pub open spec fn element_at_has(m: XmlElement, x: ResourceRefView) -> bool {
    element_at(m, x.path) matches Some(el) && attr_of(el, x.attr) == Some(x.href)
}

proof fn lemma_inlined_keeps_keys(
    attrs: AttrMap,
    refs: Seq<ResourceRefView>,
    v: EpubView,
    anchor: Seq<char>,
    key: (Seq<usize>, Seq<char>),
)
    requires
        attrs.contains_key(key),
    ensures
        inlined_from(attrs, refs, v, anchor).contains_key(key),
    decreases refs.len(),
{
    if refs.len() > 0 {
        lemma_inlined_keeps_keys(attrs, refs.drop_last(), v, anchor, key);
    }
}

proof fn lemma_media_type_ignores_cursor(v: EpubView, c: Seq<char>, path: Seq<char>, i: int)
    ensures
        media_type_from(v.with_cursor(c), path, i) == media_type_from(v, path, i),
    decreases v.manifest.len() - i,
{
    if 0 <= i < v.manifest.len() {
        lemma_media_type_ignores_cursor(v, c, path, i + 1);
    }
}

proof fn lemma_inlined_ignores_cursor(
    attrs: AttrMap,
    refs: Seq<ResourceRefView>,
    v: EpubView,
    c: Seq<char>,
    anchor: Seq<char>,
)
    ensures
        inlined_from(attrs, refs, v.with_cursor(c), anchor) == inlined_from(attrs, refs, v, anchor),
    decreases refs.len(),
{
    if refs.len() > 0 {
        lemma_inlined_ignores_cursor(attrs, refs.drop_last(), v, c, anchor);
        lemma_media_type_ignores_cursor(v, c, resolved(refs.last().href, anchor), 0);
    }
}

/// Rendering a document does not depend on the cursor: the same state with
/// the cursor elsewhere renders every path to the same text.
pub proof fn lemma_rendering_ignores_cursor(v: EpubView, c: Seq<char>, p: Seq<char>)
    ensures
        rendered(v.with_cursor(c), p) == rendered(v, p),
{
    if v.entries.contains_key(p) {
        if let Some(m) = xml_tree(v.entries[p]) {
            lemma_inlined_ignores_cursor(attr_map(m), refs_of(m, seq![]), v, c, p);
        }
    }
}

/// The number of documents in the reading order of an open publication is
/// the number of `itemref` children of the `spine` of the package document
/// that its archive holds.
pub proof fn lemma_doc_count_is_itemref_count(v: EpubView)
    requires
        well_formed(v),
    ensures
        xml_tree(v.entries[v.opf_path]) matches Some(opf) && v.spine.len() == itemref_count(opf),
{
    let opf = v.opf_doc;
    let man_el = child_named(opf, "manifest"@, None)->0;
    let spine_el = child_named(opf, "spine"@, None)->0;
    let items = items_of(all_named(man_el.children@, "item"@))->Ok_0;
    lemma_spine_len(all_named(spine_el.children@, "itemref"@), manifest_of(items));
}

proof fn lemma_current_index_found(v: EpubView, j: int, n: int)
    requires
        0 <= j <= n < v.spine.len(),
        chapter_path(v, n) == v.current_path,
        forall|i: int| j <= i < n ==> chapter_path(v, i) != v.current_path,
    ensures
        current_index_from(v, j) == Some(n),
    decreases n - j,
{
    if j < n {
        lemma_current_index_found(v, j + 1, n);
    }
}

/// With the cursor on the first document of the reading order (as after
/// `chapter(0)`), `prev_chapter` renders that document again, to the text
/// that `chapter(0)` gives from any cursor: the lower bound saturates.
pub proof fn lemma_prev_at_first_chapter(v: EpubView, c: Seq<char>)
    requires
        well_formed(v),
        v.spine.len() > 0,
        v.current_path == chapter_path(v, 0),
    ensures
        prev_index(v) == Some(0int),
        rendered(v, chapter_path(v, 0)) == rendered(
            v.with_cursor(c),
            chapter_path(v.with_cursor(c), 0),
        ),
{
    lemma_current_index_found(v, 0, 0);
    lemma_rendering_ignores_cursor(v, c, chapter_path(v, 0));
}

/// With the cursor on the `n`-th document of the reading order (as after
/// `chapter(n)`), `next_chapter` renders the `(n + 1)`-th, as `chapter(n + 1)`
/// does from any cursor, to the same text, provided no earlier spine entry
/// designates the same document.
pub proof fn lemma_next_after_chapter(v: EpubView, n: int, c: Seq<char>)
    requires
        well_formed(v),
        0 <= n,
        n + 1 < v.spine.len(),
        v.current_path == chapter_path(v, n),
        forall|i: int| 0 <= i < n ==> chapter_path(v, i) != chapter_path(v, n),
    ensures
        next_index(v) == Some(n + 1),
        rendered(v, chapter_path(v, n + 1)) == rendered(
            v.with_cursor(c),
            chapter_path(v.with_cursor(c), n + 1),
        ),
{
    lemma_current_index_found(v, 0, n);
    lemma_rendering_ignores_cursor(v, c, chapter_path(v, n + 1));
}

proof fn lemma_inlined_value(
    attrs: AttrMap,
    refs: Seq<ResourceRefView>,
    v: EpubView,
    anchor: Seq<char>,
    key: (Seq<usize>, Seq<char>),
    h: Seq<char>,
    j: int,
)
    requires
        0 <= j < refs.len(),
        (refs[j].path, refs[j].attr) == key,
        forall|i: int|
            0 <= i < refs.len() && (#[trigger] refs[i]).path == key.0 && refs[i].attr == key.1
                ==> refs[i].href == h,
    ensures
        inlined_from(attrs, refs, v, anchor).contains_key(key),
        inlined_from(attrs, refs, v, anchor)[key] == data_uri(v, h, anchor),
    decreases refs.len(),
{
    let last = refs.last();
    if last.path == key.0 && last.attr == key.1 {
        assert(refs[refs.len() - 1] == last);
    } else {
        assert(j < refs.len() - 1);
        let rest = refs.drop_last();
        assert(rest[j] == refs[j]);
        assert forall|i: int|
            0 <= i < rest.len() && (#[trigger] rest[i]).path == key.0 && rest[i].attr == key.1
                implies rest[i].href == h by {
            assert(rest[i] == refs[i]);
        }
        lemma_inlined_value(attrs, rest, v, anchor, key, h, j);
    }
}

/// In a rendered document, every element that refers to a resource (an
/// `img` through `src`, an `image` through `xlink:href`, a `link` through
/// `href`) has that attribute set to the data URI of the entry it
/// designates: `data:`, the declared media type, `;base64,` and the base64
/// encoding of the entry's bytes.
pub proof fn lemma_every_reference_inlined(
    v: EpubView,
    m: XmlElement,
    anchor: Seq<char>,
    path: Seq<usize>,
)
    requires
        element_at(m, path) matches Some(el) && resource_attr(el.name@) matches Some(a)
            && attr_of(el, a) is Some,
    ensures
        ({
            let el = element_at(m, path)->0;
            let a = resource_attr(el.name@)->0;
            let h = attr_of(el, a)->0;
            &&& inlined_attrs(v, m, anchor).contains_key((path, a))
            &&& inlined_attrs(v, m, anchor)[(path, a)] == data_uri(v, h, anchor)
            &&& data_uri(v, h, anchor) == "data:"@ + media_type_of(v, resolved(h, anchor))
                + ";base64,"@ + base64_standard(v.entries[resolved(h, anchor)])
        }),
{
    let el = element_at(m, path)->0;
    let a = resource_attr(el.name@)->0;
    let h = attr_of(el, a)->0;
    let refs = refs_of(m, seq![]);
    let x = ResourceRefView { path, attr: a, href: h };
    lemma_every_reference_collected(m, path);
    lemma_refs_are_attributes(m);
    let j = choose|j: int| 0 <= j < refs.len() && refs[j] == x;
    assert forall|i: int|
        0 <= i < refs.len() && (#[trigger] refs[i]).path == path && refs[i].attr == a
            implies refs[i].href == h by {
        assert(element_at_has(m, refs[i]));
    }
    lemma_inlined_value(attr_map(m), refs, v, anchor, (path, a), h, j);
}

} // verus!
