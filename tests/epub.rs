use leedor::epub::Epub;
use leedor::error::EpubError;
use std::io::Write;

const PREFIX: &str = "@public@vhost@g@gutenberg@html@files@26964@26964-h@";

const CONTAINER: &str = r#"<?xml version="1.0"?>
<container version="1.0" xmlns="urn:oasis:names:tc:opendocument:xmlns:container">
  <rootfiles>
    <rootfile full-path="OEBPS/content.opf" media-type="application/oebps-package+xml"/>
  </rootfiles>
</container>"#;

const PNG: &[u8] = &[0x89, b'P', b'N', b'G', 0x0d, 0x0a, 0x1a, 0x0a, 0, 1, 2, 254, 255];
const CSS: &[u8] = b"body { margin: 0; }\n";

fn opf() -> String {
    format!(
        r#"<?xml version="1.0" encoding="utf-8"?>
<package xmlns="http://www.idpf.org/2007/opf" version="2.0" unique-identifier="id">
  <metadata xmlns:dc="http://purl.org/dc/elements/1.1/">
    <dc:title>Briefe aus dem Gefaengnis</dc:title>
  </metadata>
  <manifest>
    <item id="item1" href="{p}26964-h-0.htm.html" media-type="application/xhtml+xml"/>
    <item id="item2" href="{p}26964-h-1.htm.html" media-type="application/xhtml+xml"/>
    <item id="item3" href="{p}26964-h-2.htm.html" media-type="application/xhtml+xml"/>
    <item id="image1" href="{p}images@cover.png" media-type="image/png"/>
    <item id="css" href="pgepub.css" media-type="text/css"/>
    <item id="ncx" href="toc.ncx" media-type="application/x-dtbncx+xml"/>
  </manifest>
  <spine toc="ncx">
    <itemref idref="item1" linear="yes"/>
    <itemref idref="item2" linear="yes"/>
    <itemref idref="item3" linear="yes"/>
  </spine>
</package>"#,
        p = PREFIX
    )
}

fn chapter0() -> String {
    format!(
        r#"<?xml version="1.0" encoding="utf-8"?>
<html xmlns="http://www.w3.org/1999/xhtml">
<head><title>Briefe</title><link rel="stylesheet" href="pgepub.css" type="text/css"/></head>
<body>
<h1 id="pgepubid00000">BRIEFE AUS DEM GEFÄNGNIS</h1>
<p><img alt="" src="{p}images@cover.png"/></p>
<p>Text<a href="{p}26964-h-2.htm.html#Footnote_1_1" id="FNanchor_1_1">[1]</a></p>
</body>
</html>"#,
        p = PREFIX
    )
}

const CHAPTER1: &str = r#"<?xml version="1.0" encoding="utf-8"?>
<html xmlns="http://www.w3.org/1999/xhtml">
<head><title>Vorwort</title></head>
<body>
<h2 id="pgepubid00001">Vorwort</h2>
<p>Ein kurzes Vorwort.</p>
</body>
</html>"#;

const CHAPTER2: &str = r#"<?xml version="1.0" encoding="utf-8"?>
<html xmlns="http://www.w3.org/1999/xhtml">
<head><title>Briefe</title></head>
<body>
<h2 id="pgepubid00006">Erster Brief</h2>
<p>Ein langer Brief, der mehr Text hat als die anderen Kapitel.</p>
<div id="Footnote_1_1"><p>[1] Eine Fussnote.</p></div>
</body>
</html>"#;

fn ncx() -> String {
    let labels = [
        ("  BRIEFE AUS DEM GEFÄNGNIS\n ", "26964-h-0.htm.html#pgepubid00000"),
        ("Vorwort", "26964-h-1.htm.html#pgepubid00001"),
        ("Erster Brief", "26964-h-2.htm.html#pgepubid00006"),
        ("Zweiter Brief", "26964-h-2.htm.html#pgepubid00007"),
        ("Dritter Brief", "26964-h-2.htm.html#pgepubid00008"),
        ("Vierter Brief", "26964-h-2.htm.html#pgepubid00009"),
        ("Anmerkungen", "26964-h-2.htm.html#Footnote_1_1"),
    ];
    let mut points = String::new();
    for (i, (label, href)) in labels.iter().enumerate() {
        points.push_str(&format!(
            "<navPoint id=\"np-{}\" playOrder=\"{}\"><navLabel><text>{}</text></navLabel><content src=\"{}{}\"/></navPoint>\n",
            i + 1,
            i + 1,
            label,
            PREFIX,
            href
        ));
    }
    format!(
        r#"<?xml version="1.0" encoding="utf-8"?>
<ncx xmlns="http://www.daisy.org/z3986/2005/ncx/" version="2005-1">
<head><meta name="dtb:uid" content="id"/></head>
<docTitle><text>Briefe</text></docTitle>
<navMap>
{}</navMap>
</ncx>"#,
        points
    )
}

fn zip_of(files: &[(String, Vec<u8>)]) -> Vec<u8> {
    let mut w = zip::ZipWriter::new(std::io::Cursor::new(Vec::new()));
    for (name, data) in files {
        w.start_file(name.clone(), zip::write::FileOptions::default()).unwrap();
        w.write_all(data).unwrap();
    }
    w.finish().unwrap().into_inner()
}

fn book_files() -> Vec<(String, Vec<u8>)> {
    vec![
        ("mimetype".to_string(), b"application/epub+zip".to_vec()),
        ("META-INF/container.xml".to_string(), CONTAINER.as_bytes().to_vec()),
        ("OEBPS/content.opf".to_string(), opf().into_bytes()),
        (format!("OEBPS/{}26964-h-0.htm.html", PREFIX), chapter0().into_bytes()),
        (format!("OEBPS/{}26964-h-1.htm.html", PREFIX), CHAPTER1.as_bytes().to_vec()),
        (format!("OEBPS/{}26964-h-2.htm.html", PREFIX), CHAPTER2.as_bytes().to_vec()),
        (format!("OEBPS/{}images@cover.png", PREFIX), PNG.to_vec()),
        ("OEBPS/pgepub.css".to_string(), CSS.to_vec()),
        ("OEBPS/toc.ncx".to_string(), ncx().into_bytes()),
    ]
}

fn book() -> Vec<u8> {
    zip_of(&book_files())
}

fn book_with(name: &str, data: &str) -> Vec<u8> {
    let files: Vec<(String, Vec<u8>)> = book_files()
        .into_iter()
        .map(|(n, d)| if n == name { (n, data.as_bytes().to_vec()) } else { (n, d) })
        .collect();
    zip_of(&files)
}

fn attr_values<'a>(html: &'a str, tag: &str, attr: &str) -> Vec<&'a str> {
    let mut out = vec![];
    let open = format!("<{} ", tag);
    let key = format!("{}=\"", attr);
    let mut rest = html;
    while let Some(start) = rest.find(&open) {
        let elem = &rest[start..];
        let end = elem.find('>').unwrap();
        let tag_text = &elem[..end];
        if let Some(k) = tag_text.find(&key) {
            let v = &tag_text[k + key.len()..];
            out.push(&v[..v.find('"').unwrap()]);
        }
        rest = &elem[end..];
    }
    out
}

#[test]
fn doc_count() {
    let epub = Epub::new(book()).unwrap();
    let count = epub.doc_count().unwrap();
    assert_eq!(3, count);
}

#[test]
fn read_first_chapter() {
    let mut epub = Epub::new(book()).unwrap();
    let chapter_html = epub.chapter(0).unwrap();
    assert!(chapter_html.contains("<h1 id=\"pgepubid00000\">BRIEFE AUS DEM GEFÄNGNIS</h1>"));
}

#[test]
fn images_replaced_with_data_url() {
    let mut epub = Epub::new(book()).unwrap();
    let chapter_html = epub.chapter(0).unwrap();
    assert!(chapter_html.contains("<img alt=\"\" src=\"data:image/png;base64,"));
}

#[test]
fn read_chapter_by_link() {
    let mut epub = Epub::new(book()).unwrap();
    epub.chapter(0).unwrap();
    let link =
        "@public@vhost@g@gutenberg@html@files@26964@26964-h@26964-h-2.htm.html#Footnote_1_1";
    let chapter_html = epub.chapter_by_link(link).unwrap();
    assert!(chapter_html.contains("id=\"Footnote_1_1\""));
}

#[test]
fn read_chapter_by_toc_link() {
    let mut epub = Epub::new(book()).unwrap();
    let link =
        "@public@vhost@g@gutenberg@html@files@26964@26964-h@26964-h-2.htm.html#pgepubid00006";
    let chapter_html = epub.chapter_by_toc_link(link).unwrap();
    assert!(chapter_html.contains("id=\"pgepubid00006\""));
}

#[test]
fn next_chapter() {
    let mut epub = Epub::new(book()).unwrap();
    let expected = epub.chapter(1).unwrap().len();
    epub.chapter(0).unwrap();
    assert_eq!(expected, epub.next_chapter().unwrap().len());
}

#[test]
fn prev_chapter() {
    let mut epub = Epub::new(book()).unwrap();
    let expected = epub.chapter(0).unwrap().len();
    epub.chapter(1).unwrap();
    assert_eq!(expected, epub.prev_chapter().unwrap().len());
}

#[test]
fn prev_chapter_from_first_chapter() {
    let mut epub = Epub::new(book()).unwrap();
    let expected = epub.chapter(0).unwrap().len();
    epub.chapter(0).unwrap();
    assert_eq!(expected, epub.prev_chapter().unwrap().len());
}

#[test]
fn toc_epub2() {
    let mut epub = Epub::new(book()).unwrap();
    let toc = epub.toc().unwrap();
    assert_eq!(7, toc.len());
}

#[test]
fn every_image_is_a_data_uri_of_its_entry() {
    let mut epub = Epub::new(book()).unwrap();
    let html = epub.chapter(0).unwrap();
    let srcs = attr_values(&html, "img", "src");
    assert_eq!(1, srcs.len());
    for src in srcs {
        let payload = src.strip_prefix("data:image/png;base64,").unwrap();
        assert_eq!(PNG.to_vec(), base64::decode(payload).unwrap());
    }
}

#[test]
fn stylesheet_is_inlined_with_its_media_type() {
    let mut epub = Epub::new(book()).unwrap();
    let html = epub.chapter(0).unwrap();
    let hrefs = attr_values(&html, "link", "href");
    assert_eq!(1, hrefs.len());
    let payload = hrefs[0].strip_prefix("data:text/css;base64,").unwrap();
    assert_eq!(CSS.to_vec(), base64::decode(payload).unwrap());
}

#[test]
fn next_chapter_matches_direct_chapter() {
    let mut epub = Epub::new(book()).unwrap();
    for n in 0..2 {
        let direct = epub.chapter(n + 1).unwrap();
        epub.chapter(n).unwrap();
        assert_eq!(direct, epub.next_chapter().unwrap());
    }
}

#[test]
fn prev_chapter_at_first_repeats_it() {
    let mut epub = Epub::new(book()).unwrap();
    let first = epub.chapter(0).unwrap();
    assert_eq!(first, epub.prev_chapter().unwrap());
    assert_eq!(first, epub.prev_chapter().unwrap());
}

#[test]
fn next_chapter_past_the_end_fails() {
    let mut epub = Epub::new(book()).unwrap();
    epub.chapter(2).unwrap();
    assert!(matches!(epub.next_chapter(), Err(EpubError::IndexOutOfRange)));
}

#[test]
fn chapter_out_of_range_fails() {
    let mut epub = Epub::new(book()).unwrap();
    assert!(matches!(epub.chapter(3), Err(EpubError::IndexOutOfRange)));
}

#[test]
fn relative_navigation_right_after_opening_fails() {
    let mut epub = Epub::new(book()).unwrap();
    assert!(matches!(epub.prev_chapter(), Err(EpubError::CurrentNotInSpine)));
    assert!(matches!(epub.next_chapter(), Err(EpubError::CurrentNotInSpine)));
}

#[test]
fn failed_link_leaves_cursor_in_place() {
    let mut epub = Epub::new(book()).unwrap();
    epub.chapter(0).unwrap();
    let missing = epub.chapter_by_link("no-such-file.html");
    assert!(matches!(missing, Err(EpubError::Zip(zip::result::ZipError::FileNotFound))));
    let direct = {
        let mut other = Epub::new(book()).unwrap();
        other.chapter(1).unwrap()
    };
    assert_eq!(direct, epub.next_chapter().unwrap());
}

#[test]
fn link_into_non_spine_document_loses_spine_position() {
    let files = {
        let mut f = book_files();
        f.push(("OEBPS/notes.xhtml".to_string(), CHAPTER1.as_bytes().to_vec()));
        f
    };
    let mut epub = Epub::new(zip_of(&files)).unwrap();
    epub.chapter(0).unwrap();
    epub.chapter_by_link("notes.xhtml").unwrap();
    assert!(matches!(epub.next_chapter(), Err(EpubError::CurrentNotInSpine)));
}

#[test]
fn malformed_link_is_a_url_error() {
    let mut epub = Epub::new(book()).unwrap();
    assert!(matches!(epub.chapter_by_link("http://[::1"), Err(EpubError::Url(_))));
}

#[test]
fn toc_entries_in_document_order_with_trimmed_text() {
    let mut epub = Epub::new(book()).unwrap();
    let toc = epub.toc().unwrap();
    assert_eq!("BRIEFE AUS DEM GEFÄNGNIS", toc[0].text);
    assert_eq!(format!("{}26964-h-0.htm.html#pgepubid00000", PREFIX), toc[0].href);
    assert_eq!("Anmerkungen", toc[6].text);
    for item in &toc {
        assert!(!item.text.is_empty());
        assert!(!item.href.is_empty());
    }
}

#[test]
fn not_a_zip_archive_fails() {
    assert!(matches!(Epub::new(b"not a zip".to_vec()), Err(EpubError::Zip(_))));
}

#[test]
fn archive_without_container_fails() {
    let files: Vec<(String, Vec<u8>)> =
        book_files().into_iter().filter(|(n, _)| n != "META-INF/container.xml").collect();
    assert!(matches!(
        Epub::new(zip_of(&files)),
        Err(EpubError::Zip(zip::result::ZipError::FileNotFound))
    ));
}

#[test]
fn malformed_container_is_an_xml_error() {
    let bytes = book_with("META-INF/container.xml", "<container><rootfiles></container>");
    assert!(matches!(Epub::new(bytes), Err(EpubError::Xml(_))));
}

#[test]
fn container_without_rootfile_fails() {
    let bytes = book_with(
        "META-INF/container.xml",
        r#"<container xmlns="urn:oasis:names:tc:opendocument:xmlns:container"><rootfiles/></container>"#,
    );
    assert!(matches!(Epub::new(bytes), Err(EpubError::MissingRootfile)));
}

#[test]
fn rootfile_without_full_path_fails() {
    let bytes = book_with(
        "META-INF/container.xml",
        r#"<container xmlns="urn:oasis:names:tc:opendocument:xmlns:container"><rootfiles><rootfile/></rootfiles></container>"#,
    );
    match Epub::new(bytes) {
        Err(EpubError::MissingAttribute(a)) => assert_eq!("full-path", a),
        other => panic!("unexpected: {:?}", other.err()),
    }
}

#[test]
fn package_without_spine_fails() {
    let opf = r#"<package xmlns="http://www.idpf.org/2007/opf"><manifest/></package>"#;
    match Epub::new(book_with("OEBPS/content.opf", opf)) {
        Err(EpubError::MissingElement(e)) => assert_eq!("spine", e),
        other => panic!("unexpected: {:?}", other.err()),
    }
}

#[test]
fn spine_with_undeclared_idref_fails() {
    let opf = opf().replace("<itemref idref=\"item2\"", "<itemref idref=\"missing\"");
    match Epub::new(book_with("OEBPS/content.opf", &opf)) {
        Err(EpubError::UnresolvedIdref(id)) => assert_eq!("missing", id),
        other => panic!("unexpected: {:?}", other.err()),
    }
}

#[test]
fn dangling_image_fails_the_chapter() {
    let broken = chapter0().replace("images@cover.png", "images@gone.png");
    let name = format!("OEBPS/{}26964-h-0.htm.html", PREFIX);
    let mut epub = Epub::new(book_with(&name, &broken)).unwrap();
    assert!(matches!(epub.chapter(0), Err(EpubError::Zip(zip::result::ZipError::FileNotFound))));
    assert!(matches!(epub.prev_chapter(), Err(EpubError::CurrentNotInSpine)));
}

#[test]
fn escaped_link_is_percent_decoded_before_resolution() {
    let files = {
        let mut f = book_files();
        f.push(("OEBPS/notes file.xhtml".to_string(), CHAPTER1.as_bytes().to_vec()));
        f
    };
    let mut epub = Epub::new(zip_of(&files)).unwrap();
    let name = format!("{}26964-h-0.htm.html", PREFIX);
    epub.chapter_by_toc_link(&name).unwrap();
    let html = epub.chapter_by_link("notes%20file.xhtml").unwrap();
    assert!(html.contains("id=\"pgepubid00001\""));
}

#[test]
fn fragment_does_not_change_the_result() {
    let link = format!("{}26964-h-2.htm.html", PREFIX);
    let mut a = Epub::new(book()).unwrap();
    let mut b = Epub::new(book()).unwrap();
    a.chapter(0).unwrap();
    b.chapter(0).unwrap();
    let with = a.chapter_by_link(&format!("{}#Footnote_1_1", link)).unwrap();
    let without = b.chapter_by_link(&link).unwrap();
    assert_eq!(with, without);
}

#[test]
fn chapter_text_does_not_depend_on_cursor() {
    let mut epub = Epub::new(book()).unwrap();
    epub.chapter(0).unwrap();
    let first = epub.chapter(1).unwrap();
    epub.chapter(2).unwrap();
    assert_eq!(first, epub.chapter(1).unwrap());
}

#[test]
fn missing_navigation_document_fails_toc() {
    let files: Vec<(String, Vec<u8>)> =
        book_files().into_iter().filter(|(n, _)| n != "OEBPS/toc.ncx").collect();
    let mut epub = Epub::new(zip_of(&files)).unwrap();
    assert!(matches!(epub.toc(), Err(EpubError::Zip(zip::result::ZipError::FileNotFound))));
}

#[test]
fn malformed_navigation_document_fails_toc() {
    let mut epub = Epub::new(book_with("OEBPS/toc.ncx", "<ncx><navMap></ncx>")).unwrap();
    assert!(matches!(epub.toc(), Err(EpubError::Xml(_))));
}

#[test]
fn package_entry_named_by_rootfile_must_exist() {
    let bytes = book_with(
        "META-INF/container.xml",
        r#"<container xmlns="urn:oasis:names:tc:opendocument:xmlns:container"><rootfiles><rootfile full-path="OEBPS/missing.opf"/></rootfiles></container>"#,
    );
    assert!(matches!(
        Epub::new(bytes),
        Err(EpubError::Zip(zip::result::ZipError::FileNotFound))
    ));
}

#[test]
fn chapter_keeps_other_markup_and_inlines_only_resources() {
    let mut epub = Epub::new(book()).unwrap();
    let html = epub.chapter(0).unwrap();
    let hrefs = attr_values(&html, "a", "href");
    assert_eq!(vec![format!("{}26964-h-2.htm.html#Footnote_1_1", PREFIX)], hrefs);
    assert!(html.contains("<title>Briefe</title>"));
}
