//! XML documents: the tree that the outside XML library parses, and a model
//! of it in plain values (names, namespaces, attributes, child elements,
//! text) on which the library's logic works.
use vstd::prelude::*;
use vstd::utf8::valid_utf8;

verus! {

#[verifier::external_type_specification]
#[verifier::external_body]
pub struct ExDomElement(minidom::Element);

#[verifier::external_type_specification]
#[verifier::external_body]
pub struct ExXmlError(minidom::error::Error);

/// An element of a parsed document, in plain values.
pub struct XmlElement {
    /// The local name, without a namespace prefix.
    pub name: String,
    /// The namespace that the element's prefix (or its absence) designates.
    pub ns: Option<String>,
    /// The attributes, by their name as written (prefix included).
    pub attrs: Vec<(String, String)>,
    /// The child elements, in document order.
    pub children: Vec<XmlElement>,
    /// The concatenation of the element's own text nodes.
    pub text: String,
}

/// Whether `a` and `b` hold the same characters.
pub fn same_text(a: &str, b: &str) -> (r: bool)
    ensures
        r == (a@ == b@),
{
    let n = a.unicode_len();
    if n != b.unicode_len() {
        return false;
    }
    let mut i: usize = 0;
    while i < n
        invariant
            n == a@.len() == b@.len(),
            i <= n,
            a@.subrange(0, i as int) == b@.subrange(0, i as int),
        decreases n - i,
    {
        if a.get_char(i) != b.get_char(i) {
            assert(a@[i as int] != b@[i as int]);
            return false;
        }
        assert(a@.subrange(0, i + 1) =~= a@.subrange(0, i as int).push(a@[i as int]));
        assert(b@.subrange(0, i + 1) =~= b@.subrange(0, i as int).push(b@[i as int]));
        i = i + 1;
    }
    assert(a@ =~= a@.subrange(0, n as int));
    assert(b@ =~= b@.subrange(0, n as int));
    true
}

/// The value of the first attribute of `attrs` named `name`.
pub open spec fn attr_in(attrs: Seq<(String, String)>, name: Seq<char>) -> Option<Seq<char>>
    decreases attrs.len(),
{
    if attrs.len() == 0 {
        None
    } else if attrs[0].0@ == name {
        Some(attrs[0].1@)
    } else {
        attr_in(attrs.drop_first(), name)
    }
}

/// The value of the attribute `name` of `e`.
pub open spec fn attr_of(e: XmlElement, name: Seq<char>) -> Option<Seq<char>> {
    attr_in(e.attrs@, name)
}

/// Whether `e` has the local name `name` and, where `ns` is given, lies in
/// that namespace.
pub open spec fn is_named(e: XmlElement, name: Seq<char>, ns: Option<Seq<char>>) -> bool {
    &&& e.name@ == name
    &&& match ns {
        None => true,
        Some(n) => e.ns is Some && e.ns->0@ == n,
    }
}

/// The view of an optional string.
pub open spec fn opt_view(s: Option<&str>) -> Option<Seq<char>> {
    match s {
        Some(t) => Some(t@),
        None => None,
    }
}

/// The index of the first element of `s` from `i` on that `is_named`.
pub open spec fn first_named_from(
    s: Seq<XmlElement>,
    name: Seq<char>,
    ns: Option<Seq<char>>,
    i: int,
) -> Option<int>
    decreases s.len() - i,
{
    if i < 0 || i >= s.len() {
        None
    } else if is_named(s[i], name, ns) {
        Some(i)
    } else {
        first_named_from(s, name, ns, i + 1)
    }
}

/// The first child element of `e` with the local name `name` (and, where
/// given, the namespace `ns`).
pub open spec fn child_named(e: XmlElement, name: Seq<char>, ns: Option<Seq<char>>) -> Option<
    XmlElement,
> {
    match first_named_from(e.children@, name, ns, 0) {
        Some(i) => Some(e.children@[i]),
        None => None,
    }
}

/// The elements of `s` with the local name `name`, in order.
pub open spec fn all_named(s: Seq<XmlElement>, name: Seq<char>) -> Seq<XmlElement>
    decreases s.len(),
{
    if s.len() == 0 {
        seq![]
    } else if s.last().name@ == name {
        all_named(s.drop_last(), name).push(s.last())
    } else {
        all_named(s.drop_last(), name)
    }
}

/// The first element named `name` among the descendants of `e`, in document
/// order (an element before its own descendants, those before its next
/// sibling).
pub open spec fn descendant_named(e: XmlElement, name: Seq<char>) -> Option<XmlElement>
    decreases e, e.children@.len() + 1,
{
    descendant_named_from(e, name, 0)
}

/// The first element named `name` in the subtrees of the children of `e`
/// from the `i`-th on.
pub open spec fn descendant_named_from(e: XmlElement, name: Seq<char>, i: int) -> Option<
    XmlElement,
>
    decreases e, e.children@.len() - i,
{
    if i < 0 || i >= e.children@.len() {
        None
    } else {
        let c = e.children@[i];
        if c.name@ == name {
            Some(c)
        } else {
            match descendant_named(c, name) {
                Some(d) => Some(d),
                None => descendant_named_from(e, name, i + 1),
            }
        }
    }
}

impl XmlElement {
    /// The value of the attribute `name`, if present.
    pub fn attr(&self, name: &str) -> (r: Option<&String>)
        ensures
            r matches Some(v) ==> attr_of(*self, name@) == Some(v@),
            r is None ==> attr_of(*self, name@) is None,
    {
        let mut i: usize = 0;
        assert(self.attrs@.subrange(0, self.attrs@.len() as int) =~= self.attrs@);
        while i < self.attrs.len()
            invariant
                i <= self.attrs.len(),
                attr_in(self.attrs@, name@) == attr_in(self.attrs@.subrange(
                    i as int,
                    self.attrs@.len() as int,
                ), name@),
            decreases self.attrs.len() - i,
        {
            let ghost rest = self.attrs@.subrange(i as int, self.attrs@.len() as int);
            assert(rest.drop_first() =~= self.attrs@.subrange(i + 1, self.attrs@.len() as int));
            if same_text(self.attrs[i].0.as_str(), name) {
                return Some(&self.attrs[i].1);
            }
            i = i + 1;
        }
        None
    }

    /// The index of the first child element with the local name `name` and,
    /// where `ns` is given, the namespace `ns`.
    pub fn child_index(&self, name: &str, ns: Option<&str>) -> (r: Option<usize>)
        ensures
            r matches Some(i) ==> i < self.children@.len() && first_named_from(
                self.children@,
                name@,
                opt_view(ns),
                0,
            )
                == Some(i as int),
            r is None ==> first_named_from(self.children@, name@, opt_view(ns), 0) is None,
    {
        let ghost sns = opt_view(ns);
        let mut i: usize = 0;
        while i < self.children.len()
            invariant
                i <= self.children.len(),
                sns == opt_view(ns),
                first_named_from(self.children@, name@, sns, 0) == first_named_from(
                    self.children@,
                    name@,
                    sns,
                    i as int,
                ),
            decreases self.children.len() - i,
        {
            let c = &self.children[i];
            let ns_ok = match ns {
                None => true,
                Some(n) => match &c.ns {
                    Some(cn) => same_text(cn.as_str(), n),
                    None => false,
                },
            };
            let name_ok = same_text(c.name.as_str(), name);
            assert(is_named(*c, name@, sns) == (name_ok && ns_ok));
            if name_ok && ns_ok {
                return Some(i);
            }
            i = i + 1;
        }
        None
    }

    /// The first element named `name` among the descendants, in document order.
    pub fn descendant(&self, name: &str) -> (r: Option<&XmlElement>)
        ensures
            r matches Some(d) ==> descendant_named(*self, name@) == Some(*d),
            r is None ==> descendant_named(*self, name@) is None,
        decreases self, self.children@.len() + 1,
    {
        self.descendant_from(name, 0)
    }

    fn descendant_from(&self, name: &str, start: usize) -> (r: Option<&XmlElement>)
        requires
            start <= self.children@.len(),
        ensures
            r matches Some(d) ==> descendant_named_from(*self, name@, start as int) == Some(*d),
            r is None ==> descendant_named_from(*self, name@, start as int) is None,
        decreases self, self.children@.len() - start,
    {
        if start >= self.children.len() {
            return None;
        }
        let c = &self.children[start];
        if same_text(c.name.as_str(), name) {
            return Some(c);
        }
        match c.descendant(name) {
            Some(d) => Some(d),
            None => self.descendant_from(name, start + 1),
        }
    }
}

/// The element that `path` leads to from `e`, one child index per level.
pub open spec fn element_at(e: XmlElement, path: Seq<usize>) -> Option<XmlElement>
    decreases path.len(),
{
    if path.len() == 0 {
        Some(e)
    } else if path[0] < e.children@.len() {
        element_at(e.children@[path[0] as int], path.drop_first())
    } else {
        None
    }
}

/// A document's attribute values, by the path of their element and their
/// name.
pub type AttrMap = Map<(Seq<usize>, Seq<char>), Seq<char>>;

/// The attribute values of the document that `m` models.
pub open spec fn attr_map(m: XmlElement) -> AttrMap {
    Map::new(
        |k: (Seq<usize>, Seq<char>)|
            element_at(m, k.0) is Some && attr_of(element_at(m, k.0)->0, k.1) is Some,
        |k: (Seq<usize>, Seq<char>)| attr_of(element_at(m, k.0)->0, k.1)->0,
    )
}

/// The attribute values under the `i`-th child, by paths from that child.
pub open spec fn sub_attrs(m: AttrMap, i: usize) -> AttrMap {
    Map::new(
        |k: (Seq<usize>, Seq<char>)| m.contains_key((seq![i] + k.0, k.1)),
        |k: (Seq<usize>, Seq<char>)| m[(seq![i] + k.0, k.1)],
    )
}

/// `m` with the attribute values under the `i`-th child replaced by `c`.
pub open spec fn graft_attrs(m: AttrMap, i: usize, c: AttrMap) -> AttrMap {
    Map::new(
        |k: (Seq<usize>, Seq<char>)|
            if k.0.len() > 0 && k.0[0] == i {
                c.contains_key((k.0.drop_first(), k.1))
            } else {
                m.contains_key(k)
            },
        |k: (Seq<usize>, Seq<char>)|
            if k.0.len() > 0 && k.0[0] == i {
                c[(k.0.drop_first(), k.1)]
            } else {
                m[k]
            },
    )
}

/// The model of the document that `bytes` hold, if they parse.
pub uninterp spec fn xml_tree(bytes: Seq<u8>) -> Option<XmlElement>;

/// The attribute values of a parsed document, by the path of their element
/// (child indices from the root) and their name.
pub uninterp spec fn dom_attrs(d: minidom::Element) -> AttrMap;

/// What minidom writes for a parsed document with every attribute value
/// emptied: everything that the document holds but attribute values.
pub uninterp spec fn dom_frame(d: minidom::Element) -> Seq<u8>;

/// The frame of the document that `bytes` hold.
pub uninterp spec fn parsed_frame(bytes: Seq<u8>) -> Seq<u8>;

/// What minidom writes for a document with the frame `frame` and the
/// attribute values `attrs`.
pub uninterp spec fn written_form(frame: Seq<u8>, attrs: AttrMap) -> Seq<u8>;

/// Relies on quick-xml's `Reader::from_reader` and minidom's
/// `Element::from_reader`: parses the document that `bytes` hold, and copies
/// it into its model with `element_model`.
#[verifier::external_body]
pub(crate) fn parse_document(bytes: &[u8]) -> (r: Result<
    (minidom::Element, XmlElement),
    minidom::error::Error,
>)
    ensures
        r is Ok <==> xml_tree(bytes@) is Some,
        r matches Ok((d, m)) ==> xml_tree(bytes@) == Some(m) && dom_attrs(d) == attr_map(m)
            && dom_frame(d) == parsed_frame(bytes@),
{
    let d = minidom::Element::from_reader(&mut quick_xml::Reader::from_reader(bytes))?;
    let m = element_model(&d);
    Ok((d, m))
}

/// Parses the document `bytes` into its model.
pub fn parse_xml(bytes: &[u8]) -> (r: Result<XmlElement, crate::error::EpubError>)
    ensures
        r is Ok <==> xml_tree(bytes@) is Some,
        r matches Ok(m) ==> xml_tree(bytes@) == Some(m),
        r matches Err(e) ==> e@ == crate::error::ErrorView::Xml,
{
    match parse_document(bytes) {
        Ok((_, m)) => Ok(m),
        Err(e) => Err(crate::error::EpubError::Xml(e)),
    }
}

/// The copying half of `parse_document`: relies on minidom's accessors
/// `name`, `ns`, `attrs`, `children` and `text`, one element for one.
#[verifier::external_body]
fn element_model(e: &minidom::Element) -> (r: XmlElement) {
    XmlElement {
        name: e.name().to_string(),
        ns: e.ns(),
        attrs: e.attrs().map(|(k, v)| (k.to_string(), v.to_string())).collect(),
        children: e.children().map(element_model).collect(),
        text: e.text(),
    }
}

/// Relies on minidom's `Element::children_mut`: the `i`-th child element, if
/// any. The child holds the attributes of `e` under index `i`, and what
/// becomes of it becomes of `e` there.
#[verifier::external_body]
pub(crate) fn dom_child_mut(e: &mut minidom::Element, i: usize) -> (r: Option<&mut minidom::Element>)
    ensures
        r matches Some(c) ==> dom_attrs(*c) == sub_attrs(dom_attrs(*old(e)), i) && dom_attrs(
            *final(e),
        ) == graft_attrs(dom_attrs(*old(e)), i, dom_attrs(*final(c))) && (dom_frame(*final(c))
            == dom_frame(*c) ==> dom_frame(*final(e)) == dom_frame(*old(e))),
        r is None ==> *final(e) == *old(e) && forall|k: (Seq<usize>, Seq<char>)|
            #[trigger] dom_attrs(*old(e)).contains_key(k) ==> k.0.len() == 0 || k.0[0] != i,
{
    e.children_mut().nth(i)
}

/// Relies on minidom's `Element::set_attr`: sets the attribute `name` to
/// `value`; replacing a value leaves the frame as it was.
#[verifier::external_body]
pub(crate) fn dom_set_attr(e: &mut minidom::Element, name: &str, value: String)
    ensures
        dom_attrs(*final(e)) == dom_attrs(*old(e)).insert((seq![], name@), value@),
        dom_attrs(*old(e)).contains_key((seq![], name@)) ==> dom_frame(*final(e)) == dom_frame(
            *old(e),
        ),
{
    e.set_attr(name, value)
}

/// Relies on minidom's `Element::write_to`, into memory, where writing
/// cannot fail: serialises the document. minidom writes names, text and
/// escaped attribute values from `String`s, so the result is UTF-8.
#[verifier::external_body]
pub(crate) fn write_document(e: &minidom::Element) -> (r: Result<Vec<u8>, minidom::error::Error>)
    ensures
        r is Ok,
        r matches Ok(b) ==> b@ == written_form(dom_frame(*e), dom_attrs(*e)) && valid_utf8(b@),
{
    let mut out = Vec::new();
    e.write_to(&mut out)?;
    Ok(out)
}

proof fn lemma_graft_insert(m: AttrMap, i: usize, p: Seq<usize>, a: Seq<char>, v: Seq<char>)
    ensures
        graft_attrs(m, i, sub_attrs(m, i).insert((p, a), v)) == m.insert((seq![i] + p, a), v),
{
    let g = graft_attrs(m, i, sub_attrs(m, i).insert((p, a), v));
    let h = m.insert((seq![i] + p, a), v);
    assert forall|k: (Seq<usize>, Seq<char>)| #[trigger] g.contains_key(k) == h.contains_key(k)
        && (g.contains_key(k) ==> g[k] == h[k]) by {
        if k.0.len() > 0 && k.0[0] == i {
            assert(seq![i] + k.0.drop_first() =~= k.0);
            if k.0.drop_first() =~= p {
                assert(k.0 =~= seq![i] + p);
            }
            if k.0 =~= seq![i] + p {
                assert(k.0.drop_first() =~= p);
            }
        } else {
            assert(k.0 != seq![i] + p) by {
                if k.0 =~= seq![i] + p {
                    assert(k.0[0] == i);
                }
            }
        }
    }
    assert(g =~= h);
}

/// Sets the attribute `name` to `value` on the element that `path` leads to
/// from `e`, one child index per level, from `depth` on. That element has the
/// attribute already: only its value changes.
pub(crate) fn set_attr_at(
    e: &mut minidom::Element,
    path: &Vec<usize>,
    depth: usize,
    name: &str,
    value: String,
)
    requires
        depth <= path.len(),
        dom_attrs(*old(e)).contains_key((path@.subrange(depth as int, path@.len() as int), name@)),
    ensures
        dom_attrs(*final(e)) == dom_attrs(*old(e)).insert(
            (path@.subrange(depth as int, path@.len() as int), name@),
            value@,
        ),
        dom_frame(*final(e)) == dom_frame(*old(e)),
    decreases path.len() - depth,
{
    let ghost rest = path@.subrange(depth as int, path@.len() as int);
    if depth == path.len() {
        assert(rest =~= seq![]);
        dom_set_attr(e, name, value);
    } else {
        let i = path[depth];
        let ghost tail = path@.subrange(depth + 1, path@.len() as int);
        assert(rest =~= seq![i] + tail);
        assert(rest.drop_first() =~= tail);
        let ghost before = dom_attrs(*e);
        match dom_child_mut(e, i) {
            Some(c) => {
                assert(sub_attrs(before, i).contains_key((tail, name@)));
                set_attr_at(c, path, depth + 1, name, value);
                proof {
                    lemma_graft_insert(before, i, tail, name@, value@);
                }
            },
            None => {
                assert(before.contains_key((rest, name@)));
                assert(false);
            },
        }
    }
}

} // verus!
