use llpr::names::PdfName;
use llpr::next_object::next_object;
use llpr::pdf_source::ByteSliceSource;
use llpr::pdf_types::{Dictionary, PdfNumber, PdfObject, Reference};
use llpr::records::{Catalog, Page, Pages, Trailer};
use llpr::PdfError;

fn integer(i: i64) -> PdfObject {
    PdfObject::Number(PdfNumber::Integer(i))
}

fn dictionary(text: &[u8]) -> Dictionary {
    let mut source = ByteSliceSource::new(text);
    match next_object(&mut source) {
        Ok(Some(PdfObject::Dictionary(dict))) => dict,
        other => panic!("not a dictionary: {:?}", other),
    }
}

#[test]
fn trailer_record() {
    let trailer = Trailer::new(dictionary(
        b"<< /Size 22 /Root 2 0 R /Info << /Count 1 >> /ID [ <01> <02> ] /Prev 116 >>",
    ))
    .ok()
    .unwrap();
    assert_eq!(trailer.size, 22);
    assert_eq!(trailer.root, Reference::new(2, 0));
    assert_eq!(trailer.prev, Some(116));
    assert!(trailer.encrypt.is_none());
    assert_eq!(trailer.info.unwrap().len(), 1);
    assert_eq!(
        trailer.id,
        Some(vec![PdfObject::String(vec![1]), PdfObject::String(vec![2])])
    );
    assert_eq!(
        Trailer::new(dictionary(b"<< /Size 22 >>")).err(),
        Some(PdfError::InvalidPdf("invalid trailer dictionary"))
    );
    assert_eq!(
        Trailer::new(dictionary(b"<< /Root 2 0 R /Size (22) >>")).err(),
        Some(PdfError::InvalidPdf("invalid trailer dictionary"))
    );
}

#[test]
fn catalog_record() {
    let catalog = Catalog::new(dictionary(
        b"<< /Type /Catalog /Pages 3 0 R /PageMode /Outlines /Names << >> /Threads [ 1 ] \
          /Lang (en) /Version 7 >>",
    ))
    .ok()
    .unwrap();
    assert_eq!(catalog.catalog_type, PdfName::Catalog);
    assert_eq!(catalog.pages, Reference::new(3, 0));
    assert_eq!(catalog.page_mode, Some(PdfName::Outlines));
    assert_eq!(catalog.names.map(|d| d.len()), Some(0));
    assert_eq!(catalog.threads, Some(vec![integer(1)]));
    // An entry of another type counts as absent.
    assert_eq!(catalog.version, None);
    assert_eq!(catalog.lang, None);
    assert!(catalog.outlines.is_none());
    assert_eq!(
        Catalog::new(dictionary(b"<< /Type /Pages /Pages 3 0 R >>")).err(),
        Some(PdfError::InvalidPdf("invalid catalog"))
    );
    assert_eq!(
        Catalog::new(dictionary(b"<< /Type /Catalog >>")).err(),
        Some(PdfError::InvalidPdf("invalid catalog"))
    );
    assert_eq!(
        Catalog::new(dictionary(b"<< /Pages 3 0 R >>")).err(),
        Some(PdfError::InvalidPdf("invalid catalog"))
    );
}

#[test]
fn pages_hand_down_what_they_hold() {
    let root = Pages::new_root(dictionary(
        b"<< /Type /Pages /Kids [ 4 0 R ] /Count 2 /MediaBox [ 0 0 300 144 ] /Rotate 90 \
          /Resources << /Font << >> >> >>",
    ))
    .ok()
    .unwrap();
    assert_eq!(root.node_type, PdfName::Pages);
    assert_eq!(root.parent, None);
    assert_eq!(root.count, 2);
    assert_eq!(root.kids, vec![PdfObject::Reference(Reference::new(4, 0))]);
    assert_eq!(root.rotate, Some(90));
    assert!(root.crop_box.is_none());

    let node = Pages::new(
        dictionary(
            b"<< /Type /Pages /Parent 2 0 R /Kids [ ] /Count 0 /Rotate 180 /CropBox [ 1 ] >>",
        ),
        &root,
    )
    .ok()
    .unwrap();
    assert_eq!(node.parent, Some(Reference::new(2, 0)));
    assert_eq!(node.rotate, Some(180));
    assert_eq!(node.media_box, root.media_box);
    assert_eq!(node.resources, root.resources);
    assert_eq!(node.crop_box, Some(vec![integer(1)]));

    let page = Page::new(
        dictionary(b"<< /Type /Page /Parent 4 0 R /Tabs /Root /StructParents 3 /Dur 2.5 >>"),
        &node,
    )
    .ok()
    .unwrap();
    assert_eq!(page.page_type, PdfName::Page);
    assert_eq!(page.parent, Reference::new(4, 0));
    assert_eq!(Some(page.media_box), root.media_box);
    assert_eq!(Some(page.resources), root.resources);
    assert_eq!(page.crop_box, Some(vec![integer(1)]));
    assert_eq!(page.rotate, Some(180));
    assert_eq!(page.tabs, Some(PdfName::Root));
    assert_eq!(page.struct_parents, Some(3));
    assert_eq!(page.dur, Some(PdfNumber::Real(b"2.5".to_vec())));
    assert!(page.contents.is_none());

    let bare = Pages::new_root(dictionary(b"<< /Type /Pages /Kids [ ] /Count 0 >>"))
        .ok()
        .unwrap();
    assert_eq!(
        Page::new(dictionary(b"<< /Type /Page /Parent 4 0 R >>"), &bare).err(),
        Some(PdfError::InvalidPdf("invalid page"))
    );
    assert!(Page::new(
        dictionary(b"<< /Type /Page /Parent 4 0 R /MediaBox [ ] /Resources << >> >>"),
        &bare
    )
    .is_ok());
    assert_eq!(
        Page::new(dictionary(b"<< /Type /Page /MediaBox [ ] /Resources << >> >>"), &bare).err(),
        Some(PdfError::InvalidPdf("invalid page"))
    );
    assert_eq!(
        Pages::new_root(dictionary(b"<< /Type /Pages /Kids [ ] >>")).err(),
        Some(PdfError::InvalidPdf("invalid pages"))
    );
    assert_eq!(
        Pages::new(dictionary(b"<< /Type /Page /Kids [ ] /Count 0 >>"), &bare).err(),
        Some(PdfError::InvalidPdf("invalid pages"))
    );
}
