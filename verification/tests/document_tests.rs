use speedreading_app_core::parser::{
    detect_format, parse_document, parse_epub, parse_pdf, parse_txt, FileFormat, ParseError,
};

fn crc32(data: &[u8]) -> u32 {
    let mut crc: u32 = 0xFFFF_FFFF;
    for &b in data {
        crc ^= b as u32;
        for _ in 0..8 {
            let mask = (!(crc & 1)).wrapping_add(1);
            crc = (crc >> 1) ^ (0xEDB8_8320 & mask);
        }
    }
    !crc
}

fn push16(out: &mut Vec<u8>, v: u16) {
    out.extend_from_slice(&v.to_le_bytes());
}

fn push32(out: &mut Vec<u8>, v: u32) {
    out.extend_from_slice(&v.to_le_bytes());
}

/// A zip archive with the given entries, stored without compression.
fn stored_zip(entries: &[(&str, &[u8])]) -> Vec<u8> {
    let mut out = Vec::new();
    let mut central = Vec::new();
    for (name, data) in entries {
        let offset = out.len() as u32;
        let crc = crc32(data);
        push32(&mut out, 0x0403_4b50);
        push16(&mut out, 20);
        push16(&mut out, 0);
        push16(&mut out, 0);
        push16(&mut out, 0);
        push16(&mut out, 33);
        push32(&mut out, crc);
        push32(&mut out, data.len() as u32);
        push32(&mut out, data.len() as u32);
        push16(&mut out, name.len() as u16);
        push16(&mut out, 0);
        out.extend_from_slice(name.as_bytes());
        out.extend_from_slice(data);

        push32(&mut central, 0x0201_4b50);
        push16(&mut central, 20);
        push16(&mut central, 20);
        push16(&mut central, 0);
        push16(&mut central, 0);
        push16(&mut central, 0);
        push16(&mut central, 33);
        push32(&mut central, crc);
        push32(&mut central, data.len() as u32);
        push32(&mut central, data.len() as u32);
        push16(&mut central, name.len() as u16);
        push16(&mut central, 0);
        push16(&mut central, 0);
        push16(&mut central, 0);
        push16(&mut central, 0);
        push32(&mut central, 0);
        push32(&mut central, offset);
        central.extend_from_slice(name.as_bytes());
    }
    let cd_offset = out.len() as u32;
    let cd_size = central.len() as u32;
    out.extend_from_slice(&central);
    push32(&mut out, 0x0605_4b50);
    push16(&mut out, 0);
    push16(&mut out, 0);
    push16(&mut out, entries.len() as u16);
    push16(&mut out, entries.len() as u16);
    push32(&mut out, cd_size);
    push32(&mut out, cd_offset);
    push16(&mut out, 0);
    out
}

const CONTAINER: &str = r#"<?xml version="1.0"?>
<container version="1.0" xmlns="urn:oasis:names:tc:opendocument:xmlns:container">
  <rootfiles>
    <rootfile full-path="OEBPS/content.opf" media-type="application/oebps-package+xml"/>
  </rootfiles>
</container>"#;

const OPF: &str = r#"<?xml version="1.0" encoding="UTF-8"?>
<package xmlns="http://www.idpf.org/2007/opf" version="2.0" unique-identifier="bookid">
  <metadata xmlns:dc="http://purl.org/dc/elements/1.1/">
    <dc:title>Sample</dc:title>
    <dc:identifier id="bookid">sample-1</dc:identifier>
  </metadata>
  <manifest>
    <item id="c1" href="c1.xhtml" media-type="application/xhtml+xml"/>
    <item id="c2" href="c2.xhtml" media-type="application/xhtml+xml"/>
  </manifest>
  <spine>
    <itemref idref="c1"/>
    <itemref idref="gone"/>
    <itemref idref="c2"/>
  </spine>
</package>"#;

const CH1: &str = "<html><head><title>One</title><style>p { color: red }</style></head><body><p>First chapter text</p></body></html>";
const CH2: &str = "<html><body><script>ignored()</script><p>Second chapter</p></body></html>";

fn sample_epub() -> Vec<u8> {
    stored_zip(&[
        ("mimetype", b"application/epub+zip"),
        ("META-INF/container.xml", CONTAINER.as_bytes()),
        ("OEBPS/content.opf", OPF.as_bytes()),
        ("OEBPS/c1.xhtml", CH1.as_bytes()),
        ("OEBPS/c2.xhtml", CH2.as_bytes()),
    ])
}

#[test]
fn parse_epub_reads_spine_in_order() {
    let words = parse_epub(sample_epub()).expect("epub parse failed");
    assert_eq!(words, vec!["First", "chapter", "text", "Second", "chapter"]);
}

#[test]
fn parse_epub_without_text_is_empty_error() {
    let opf = OPF.replace("c1.xhtml\" media", "c1.xhtml\" media");
    let bytes = stored_zip(&[
        ("mimetype", b"application/epub+zip"),
        ("META-INF/container.xml", CONTAINER.as_bytes()),
        ("OEBPS/content.opf", opf.as_bytes()),
        ("OEBPS/c1.xhtml", b"<html><head><title>x</title></head><body></body></html>"),
        ("OEBPS/c2.xhtml", b"<p> </p>"),
    ]);
    assert_eq!(parse_epub(bytes), Err(ParseError::EmptyEpub));
}

#[test]
fn parse_document_epub_hashes_bytes() {
    let bytes = sample_epub();
    let (words, hash) = parse_document(FileFormat::Epub, bytes).expect("epub parse failed");
    assert_eq!(words.len(), 5);
    assert_eq!(hash.len(), 64);
    assert!(hash.chars().all(|c| c.is_ascii_hexdigit() && !c.is_ascii_uppercase()));
}

fn sample_pdf(text: &str) -> Vec<u8> {
    let content = format!("BT /F1 24 Tf 72 720 Td ({text}) Tj ET");
    let objects = vec![
        "<< /Type /Catalog /Pages 2 0 R >>".to_string(),
        "<< /Type /Pages /Kids [3 0 R] /Count 1 >>".to_string(),
        "<< /Type /Page /Parent 2 0 R /MediaBox [0 0 612 792] /Contents 4 0 R /Resources << /Font << /F1 5 0 R >> >> >>".to_string(),
        format!("<< /Length {} >>\nstream\n{}\nendstream", content.len(), content),
        "<< /Type /Font /Subtype /Type1 /BaseFont /Helvetica /Encoding /WinAnsiEncoding >>".to_string(),
    ];
    let mut out = b"%PDF-1.4\n".to_vec();
    let mut offsets = Vec::new();
    for (i, obj) in objects.iter().enumerate() {
        offsets.push(out.len());
        out.extend_from_slice(format!("{} 0 obj\n{}\nendobj\n", i + 1, obj).as_bytes());
    }
    let xref = out.len();
    out.extend_from_slice(format!("xref\n0 {}\n0000000000 65535 f \n", objects.len() + 1).as_bytes());
    for off in offsets {
        out.extend_from_slice(format!("{:010} 00000 n \n", off).as_bytes());
    }
    out.extend_from_slice(
        format!("trailer\n<< /Size {} /Root 1 0 R >>\nstartxref\n{}\n%%EOF\n", objects.len() + 1, xref).as_bytes(),
    );
    out
}

#[test]
fn parse_pdf_extracts_text_layer() {
    let words = parse_pdf(&sample_pdf("Hello PDF world")).expect("pdf parse failed");
    assert!(words.iter().any(|w| w.contains("Hello")), "got {words:?}");
}

#[test]
fn parse_pdf_without_text_is_image_only_error() {
    assert_eq!(parse_pdf(&sample_pdf("")), Err(ParseError::ImageOnlyPdf));
}

const SAMPLE_TXT: &str = "The quick brown fox jumps over the lazy dog.\nSpeed reading shows one word at a time,\nanchored at its optimal recognition point.\n";

#[test]
fn test_parse_txt_fixture() {
    let words = parse_txt(SAMPLE_TXT.as_bytes()).expect("txt parse failed");
    assert!(!words.is_empty(), "txt parser returned empty word list");
    assert!(words.len() >= 10, "expected at least 10 words, got {}", words.len());
}

#[test]
fn test_parse_epub_fixture() {
    let words = parse_epub(sample_epub()).expect("epub parse failed");
    assert!(!words.is_empty(), "epub parser returned empty word list");
    assert!(words.len() >= 5, "expected at least 5 words, got {}", words.len());
}

#[test]
fn test_parse_pdf_fixture() {
    let words = parse_pdf(&sample_pdf("Reading one word at a time")).expect("pdf parse failed");
    assert!(!words.is_empty(), "pdf parser returned empty word list");
    assert!(words.len() >= 4, "expected at least 4 words, got {}", words.len());
}

#[test]
fn test_detect_and_parse_txt() {
    let format = detect_format("/tmp/fixtures/sample.txt").expect("txt is supported");
    assert_eq!(format, FileFormat::Txt);
    let (words, _hash) = parse_document(format, SAMPLE_TXT.as_bytes().to_vec()).expect("detect_and_parse failed for .txt");
    assert!(!words.is_empty());
}

#[test]
fn detect_format_reads_last_dot_of_file_name() {
    assert_eq!(detect_format("dir.pdf/notes.TXT"), Ok(FileFormat::Txt));
    assert_eq!(detect_format("archive.tar.Epub"), Ok(FileFormat::Epub));
    assert_eq!(
        detect_format(".pdf"),
        Err(ParseError::UnsupportedFormat { extension: String::new() })
    );
    assert_eq!(
        detect_format("notes.txt/"),
        Ok(FileFormat::Txt)
    );
}
