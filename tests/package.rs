use leedor::error::EpubError;
use leedor::inline::{resource_attr_for, resource_refs};
use leedor::package::{parse_package, rootfile_path};
use leedor::toc::read_toc;
use leedor::xml::parse_xml;

fn package(xml: &str) -> Result<leedor::package::Package, EpubError> {
    parse_package(&parse_xml(xml.as_bytes()).unwrap(), "OEBPS/content.opf")
}

#[test]
fn package_reads_manifest_spine_and_toc_path() {
    let p = package(
        r#"<package xmlns="http://www.idpf.org/2007/opf">
  <manifest>
    <item id="a" href="text/a.xhtml" media-type="application/xhtml+xml"/>
    <item id="n" href="../nav/toc.ncx" media-type="application/x-dtbncx+xml"/>
  </manifest>
  <spine toc="n"><itemref idref="a"/><itemref idref="a"/></spine>
</package>"#,
    )
    .unwrap();
    assert_eq!(2, p.manifest.len());
    assert_eq!(vec!["a", "a"], p.spine);
    assert_eq!("nav/toc.ncx", p.toc_path);
}

#[test]
fn duplicate_manifest_id_last_declaration_wins() {
    let p = package(
        r#"<package><manifest>
  <item id="a" href="one.xhtml" media-type="x/one"/>
  <item id="b" href="b.xhtml" media-type="x/b"/>
  <item id="a" href="two.xhtml" media-type="x/two"/>
</manifest><spine toc="b"><itemref idref="a"/></spine></package>"#,
    )
    .unwrap();
    assert_eq!(2, p.manifest.len());
    assert_eq!("a", p.manifest[0].id);
    assert_eq!("two.xhtml", p.manifest[0].href);
    assert_eq!("x/two", p.manifest[0].media_type);
}

#[test]
fn package_without_manifest_fails() {
    match package("<package><spine toc=\"x\"/></package>") {
        Err(EpubError::MissingElement(e)) => assert_eq!("manifest", e),
        other => panic!("unexpected: {:?}", other.err()),
    }
}

#[test]
fn manifest_item_without_media_type_fails() {
    match package("<package><manifest><item id=\"a\" href=\"a\"/></manifest><spine toc=\"a\"/></package>") {
        Err(EpubError::MissingAttribute(a)) => assert_eq!("media-type", a),
        other => panic!("unexpected: {:?}", other.err()),
    }
}

#[test]
fn itemref_without_idref_fails() {
    match package(
        "<package><manifest><item id=\"a\" href=\"a\" media-type=\"t\"/></manifest><spine toc=\"a\"><itemref/></spine></package>",
    ) {
        Err(EpubError::MissingAttribute(a)) => assert_eq!("idref", a),
        other => panic!("unexpected: {:?}", other.err()),
    }
}

#[test]
fn spine_without_toc_fails() {
    match package("<package><manifest/><spine/></package>") {
        Err(EpubError::MissingAttribute(a)) => assert_eq!("toc", a),
        other => panic!("unexpected: {:?}", other.err()),
    }
}

#[test]
fn toc_id_not_in_manifest_fails() {
    match package("<package><manifest/><spine toc=\"ncx\"/></package>") {
        Err(EpubError::UnresolvedIdref(id)) => assert_eq!("ncx", id),
        other => panic!("unexpected: {:?}", other.err()),
    }
}

#[test]
fn rootfile_found_at_any_depth() {
    let c = parse_xml(b"<container><a/><rootfiles><rootfile full-path=\"x/y.opf\"/><rootfile full-path=\"z.opf\"/></rootfiles></container>").unwrap();
    assert_eq!("x/y.opf", rootfile_path(&c).unwrap());
}

#[test]
fn toc_without_nav_map_fails() {
    let ncx = parse_xml(b"<ncx xmlns=\"urn:ncx\"><head/></ncx>").unwrap();
    match read_toc(&ncx) {
        Err(EpubError::MissingElement(e)) => assert_eq!("navMap", e),
        other => panic!("unexpected: {:?}", other.err()),
    }
}

#[test]
fn toc_reads_only_top_level_nav_points() {
    let ncx = parse_xml(
        br#"<ncx xmlns="urn:ncx"><navMap>
<navPoint><navLabel><text> One </text></navLabel><content src="a.html"/>
  <navPoint><navLabel><text>Nested</text></navLabel><content src="n.html"/></navPoint>
</navPoint>
<navPoint><navLabel><text>Two</text></navLabel><content src="b.html#x"/></navPoint>
</navMap></ncx>"#,
    )
    .unwrap();
    let toc = read_toc(&ncx).unwrap();
    assert_eq!(2, toc.len());
    assert_eq!("One", toc[0].text);
    assert_eq!("a.html", toc[0].href);
    assert_eq!("Two", toc[1].text);
    assert_eq!("b.html#x", toc[1].href);
}

#[test]
fn nav_point_without_content_fails() {
    let ncx = parse_xml(b"<ncx xmlns=\"urn:ncx\"><navMap><navPoint><navLabel><text>A</text></navLabel></navPoint></navMap></ncx>").unwrap();
    match read_toc(&ncx) {
        Err(EpubError::MissingElement(e)) => assert_eq!("content", e),
        other => panic!("unexpected: {:?}", other.err()),
    }
}

#[test]
fn resource_references_in_post_order() {
    let doc = parse_xml(
        br#"<html xmlns="h" xmlns:svg="s" xmlns:xlink="l"><head><link href="s.css"/></head>
<body><img src="a.png"/><svg:svg><svg:image xlink:href="b.png"/></svg:svg><img alt="none"/></body></html>"#,
    )
    .unwrap();
    let refs = resource_refs(&doc);
    assert_eq!(3, refs.len());
    assert_eq!(vec![0, 0], refs[0].path);
    assert_eq!("href", refs[0].attr);
    assert_eq!("s.css", refs[0].href);
    assert_eq!(vec![1, 0], refs[1].path);
    assert_eq!("src", refs[1].attr);
    assert_eq!(vec![1, 1, 0], refs[2].path);
    assert_eq!("xlink:href", refs[2].attr);
    assert_eq!("b.png", refs[2].href);
}

#[test]
fn resource_attributes_by_element_name() {
    assert_eq!(Some("src"), resource_attr_for("img"));
    assert_eq!(Some("xlink:href"), resource_attr_for("image"));
    assert_eq!(Some("href"), resource_attr_for("link"));
    assert_eq!(None, resource_attr_for("a"));
}

#[test]
fn toc_text_trims_all_unicode_white_space() {
    let ncx = parse_xml(
        "<ncx xmlns=\"urn:ncx\"><navMap><navPoint><navLabel><text>\u{3000}\u{a0} Eins\u{2009}zwei \t\u{85}</text></navLabel><content src=\"a.html\"/></navPoint></navMap></ncx>"
            .as_bytes(),
    )
    .unwrap();
    let toc = read_toc(&ncx).unwrap();
    assert_eq!("Eins\u{2009}zwei", toc[0].text);
}
