//! Records built from the dictionaries of a document: the trailer, the catalog,
//! the nodes of the page tree and the pages.
//!
//! A record takes from its dictionary the entries that it knows, each with
//! the type that it must have.  An entry of another type counts as absent.  A
//! record fails to build only where an entry that it cannot do without is absent.

use vstd::prelude::*;
use crate::dictionary::{
    array_in, dictionary_in, integer_in, name_in, number_in, reference_in, string_in, symbol_in,
};
use crate::errors::PdfError;
use crate::names::PdfName;
use crate::pdf_types::{
    array_view, copy_array, copy_dictionary, Array, Dictionary, NumberView, ObjectView, PdfNumber,
    PdfObject, PdfString, Reference,
};

verus! {

/// What a dictionary that may be absent stands for.
pub open spec fn option_dictionary_view(found: Option<Dictionary>) -> Option<
    Map<PdfName, ObjectView>,
> {
    match found {
        Some(dict) => Some(dict@),
        None => None,
    }
}

/// What an array that may be absent stands for.
pub open spec fn option_array_view(found: Option<Array>) -> Option<Seq<ObjectView>> {
    match found {
        Some(items) => Some(array_view(items@)),
        None => None,
    }
}

/// The bytes of a string that may be absent.
pub open spec fn option_bytes_view(found: Option<PdfString>) -> Option<Seq<u8>> {
    match found {
        Some(bytes) => Some(bytes@),
        None => None,
    }
}

/// What a number that may be absent stands for.
pub open spec fn option_number_view(found: Option<PdfNumber>) -> Option<NumberView> {
    match found {
        Some(n) => Some(n@),
        None => None,
    }
}

/// An integer cut to its low 32 bits, signed.
pub open spec fn cut_i32(found: Option<i64>) -> Option<i32> {
    match found {
        Some(i) => Some(i as i32),
        None => None,
    }
}

/// An integer cut to its low 32 bits.
pub open spec fn cut_u32(found: Option<i64>) -> Option<u32> {
    match found {
        Some(i) => Some(i as u32),
        None => None,
    }
}

/// An integer read as unsigned.
pub open spec fn cut_u64(found: Option<i64>) -> Option<u64> {
    match found {
        Some(i) => Some(i as u64),
        None => None,
    }
}

/// The failure of a trailer that lacks its size or its root.
pub open spec fn invalid_trailer() -> PdfError {
    PdfError::InvalidPdf("invalid trailer dictionary")
}

/// The failure of a catalog that is none or lacks its pages.
pub open spec fn invalid_catalog() -> PdfError {
    PdfError::InvalidPdf("invalid catalog")
}

/// The failure of a node of the page tree that lacks what a node must have.
pub open spec fn invalid_pages() -> PdfError {
    PdfError::InvalidPdf("invalid pages")
}

/// The failure of a page that lacks what a page must have.
pub open spec fn invalid_page() -> PdfError {
    PdfError::InvalidPdf("invalid page")
}

/// A copy of a dictionary that may be absent.
pub fn copy_option_dictionary(found: &Option<Dictionary>) -> (copy: Option<Dictionary>)
    ensures
        option_dictionary_view(copy) == option_dictionary_view(*found),
{
    match found {
        Some(dict) => Some(copy_dictionary(dict)),
        None => None,
    }
}

/// A copy of an array that may be absent.
pub fn copy_option_array(found: &Option<Array>) -> (copy: Option<Array>)
    ensures
        option_array_view(copy) == option_array_view(*found),
{
    match found {
        Some(items) => Some(copy_array(items)),
        None => None,
    }
}

/// What is found, or else what the parent hands down.
pub open spec fn inherited<T>(own: Option<T>, parent: Option<T>) -> Option<T> {
    match own {
        Some(_) => own,
        None => parent,
    }
}

/// The trailer of a file.
pub struct Trailer {
    pub size: u32,
    pub prev: Option<u64>,
    pub root: Reference,
    pub encrypt: Option<Dictionary>,
    pub info: Option<Dictionary>,
    pub id: Option<Array>,
}

impl Trailer {
    /// Builds the trailer from its dictionary.  `Size` and `Root` must be there.
    pub fn new(dict: Dictionary) -> (r: Result<Trailer, PdfError>)
        ensures
            match (integer_in(dict@, PdfName::Size), reference_in(dict@, PdfName::Root)) {
                (Some(size), Some(root)) => r matches Ok(record) && record.size == size as u32
                    && record.root == root
                    && record.prev == cut_u64(integer_in(dict@, PdfName::Prev))
                    && option_dictionary_view(record.encrypt) == dictionary_in(dict@, PdfName::Encrypt)
                    && option_dictionary_view(record.info) == dictionary_in(dict@, PdfName::Info)
                    && option_array_view(record.id) == array_in(dict@, PdfName::ID),
                _ => r == Err::<Trailer, PdfError>(invalid_trailer()),
            },
    {
        let mut dict = dict;
        let size = dict.need_u32(PdfName::Size, PdfError::InvalidPdf("invalid trailer dictionary"));
        let prev = dict.want_u64(PdfName::Prev);
        let root = dict.need_reference(
            PdfName::Root,
            PdfError::InvalidPdf("invalid trailer dictionary"),
        );
        let encrypt = dict.want_dictionary(PdfName::Encrypt);
        let info = dict.want_dictionary(PdfName::Info);
        let id = dict.want_array(PdfName::ID);
        Ok(Trailer { size: size?, prev, root: root?, encrypt, info, id })
    }
}

/// The catalog of a document.  The entries that hold an action, a stream or
/// a flag are not read and stay empty.
pub struct Catalog {
    pub catalog_type: PdfName,
    pub version: Option<PdfName>,
    pub extensions: Option<Dictionary>,
    pub pages: Reference,
    pub page_labels: Option<Dictionary>,
    pub names: Option<Dictionary>,
    pub dests: Option<Dictionary>,
    pub viewer_preferences: Option<Dictionary>,
    pub page_layout: Option<PdfName>,
    pub page_mode: Option<PdfName>,
    pub outlines: Option<Dictionary>,
    pub threads: Option<Array>,
    pub open_action: Option<PdfObject>,
    pub aa: Option<Dictionary>,
    pub uri: Option<Dictionary>,
    pub acro_form: Option<Dictionary>,
    pub metadata: Option<PdfObject>,
    pub struct_tree_root: Option<Dictionary>,
    pub mark_info: Option<Dictionary>,
    pub lang: Option<PdfString>,
    pub spider_info: Option<Dictionary>,
    pub output_intents: Option<Array>,
    pub piece_info: Option<Dictionary>,
    pub oc_properties: Option<Dictionary>,
    pub perms: Option<Dictionary>,
    pub legal: Option<Dictionary>,
    pub requirements: Option<Array>,
    pub collection: Option<Dictionary>,
    pub needs_rendering: Option<bool>,
}

impl Catalog {
    /// Builds the catalog from its dictionary.  `Type` must be `Catalog`,
    /// and `Pages` a reference.
    pub fn new(dict: Dictionary) -> (r: Result<Catalog, PdfError>)
        ensures
            match reference_in(dict@, PdfName::Pages) {
                Some(pages) if name_in(dict@, PdfName::Type) == Some(PdfName::Catalog) => {
                    &&& r matches Ok(record)
                    &&& record.catalog_type == PdfName::Catalog
                    &&& record.pages == pages
                    &&& record.open_action is None
                    &&& record.metadata is None
                    &&& record.lang is None
                    &&& record.needs_rendering is None
                    &&& record.version == name_in(dict@, PdfName::Version)
                    &&& option_dictionary_view(record.extensions) == dictionary_in(dict@, PdfName::Extensions)
                    &&& option_dictionary_view(record.page_labels) == dictionary_in(dict@, PdfName::PageLabels)
                    &&& option_dictionary_view(record.names) == dictionary_in(dict@, PdfName::Names)
                    &&& option_dictionary_view(record.dests) == dictionary_in(dict@, PdfName::Dests)
                    &&& option_dictionary_view(record.viewer_preferences) == dictionary_in(dict@, PdfName::ViewerPreferences)
                    &&& record.page_layout == name_in(dict@, PdfName::PageLayout)
                    &&& record.page_mode == name_in(dict@, PdfName::PageMode)
                    &&& option_dictionary_view(record.outlines) == dictionary_in(dict@, PdfName::Outlines)
                    &&& option_array_view(record.threads) == array_in(dict@, PdfName::Threads)
                    &&& option_dictionary_view(record.aa) == dictionary_in(dict@, PdfName::AA)
                    &&& option_dictionary_view(record.uri) == dictionary_in(dict@, PdfName::URI)
                    &&& option_dictionary_view(record.acro_form) == dictionary_in(dict@, PdfName::AcroForm)
                    &&& option_dictionary_view(record.struct_tree_root) == dictionary_in(dict@, PdfName::StructTreeRoot)
                    &&& option_dictionary_view(record.mark_info) == dictionary_in(dict@, PdfName::MarkInfo)
                    &&& option_dictionary_view(record.spider_info) == dictionary_in(dict@, PdfName::SpiderInfo)
                    &&& option_array_view(record.output_intents) == array_in(dict@, PdfName::OutputIntents)
                    &&& option_dictionary_view(record.piece_info) == dictionary_in(dict@, PdfName::PieceInfo)
                    &&& option_dictionary_view(record.oc_properties) == dictionary_in(dict@, PdfName::OCProperties)
                    &&& option_dictionary_view(record.perms) == dictionary_in(dict@, PdfName::Perms)
                    &&& option_dictionary_view(record.legal) == dictionary_in(dict@, PdfName::Legal)
                    &&& option_array_view(record.requirements) == array_in(dict@, PdfName::Requirements)
                    &&& option_dictionary_view(record.collection) == dictionary_in(dict@, PdfName::Collection)
                },
                _ => r == Err::<Catalog, PdfError>(invalid_catalog()),
            },
    {
        let mut dict = dict;
        let catalog_type = dict.need_type(PdfName::Catalog, PdfError::InvalidPdf("invalid catalog"));
        let pages = dict.need_reference(PdfName::Pages, PdfError::InvalidPdf("invalid catalog"));
        let version = dict.want_name(PdfName::Version);
        let extensions = dict.want_dictionary(PdfName::Extensions);
        let page_labels = dict.want_dictionary(PdfName::PageLabels);
        let names = dict.want_dictionary(PdfName::Names);
        let dests = dict.want_dictionary(PdfName::Dests);
        let viewer_preferences = dict.want_dictionary(PdfName::ViewerPreferences);
        let page_layout = dict.want_name(PdfName::PageLayout);
        let page_mode = dict.want_name(PdfName::PageMode);
        let outlines = dict.want_dictionary(PdfName::Outlines);
        let threads = dict.want_array(PdfName::Threads);
        let aa = dict.want_dictionary(PdfName::AA);
        let uri = dict.want_dictionary(PdfName::URI);
        let acro_form = dict.want_dictionary(PdfName::AcroForm);
        let struct_tree_root = dict.want_dictionary(PdfName::StructTreeRoot);
        let mark_info = dict.want_dictionary(PdfName::MarkInfo);
        let spider_info = dict.want_dictionary(PdfName::SpiderInfo);
        let output_intents = dict.want_array(PdfName::OutputIntents);
        let piece_info = dict.want_dictionary(PdfName::PieceInfo);
        let oc_properties = dict.want_dictionary(PdfName::OCProperties);
        let perms = dict.want_dictionary(PdfName::Perms);
        let legal = dict.want_dictionary(PdfName::Legal);
        let requirements = dict.want_array(PdfName::Requirements);
        let collection = dict.want_dictionary(PdfName::Collection);
        Ok(
            Catalog {
                catalog_type: catalog_type?,
                version,
                extensions,
                pages: pages?,
                page_labels,
                names,
                dests,
                viewer_preferences,
                page_layout,
                page_mode,
                outlines,
                threads,
                open_action: None,
                aa,
                uri,
                acro_form,
                metadata: None,
                struct_tree_root,
                mark_info,
                lang: None,
                spider_info,
                output_intents,
                piece_info,
                oc_properties,
                perms,
                legal,
                requirements,
                collection,
                needs_rendering: None,
            },
        )
    }
}

/// A node of the page tree, with what it hands down to the nodes and pages below it.
pub struct Pages {
    pub node_type: PdfName,
    pub parent: Option<Reference>,
    pub kids: Array,
    pub count: u32,
    pub resources: Option<Dictionary>,
    pub media_box: Option<Array>,
    pub crop_box: Option<Array>,
    pub rotate: Option<i32>,
}

/// Whether a dictionary has what a node of the page tree must have.
pub open spec fn is_pages_node(dict: Map<PdfName, ObjectView>) -> bool {
    &&& name_in(dict, PdfName::Type) == Some(PdfName::Pages)
    &&& array_in(dict, PdfName::Kids) is Some
    &&& integer_in(dict, PdfName::Count) is Some
}

impl Pages {
    /// Builds the root of the page tree from its dictionary.
    pub fn new_root(dict: Dictionary) -> (r: Result<Pages, PdfError>)
        ensures
            is_pages_node(dict@) ==> {
                &&& r matches Ok(record)
                &&& record.node_type == PdfName::Pages
                &&& record.parent == reference_in(dict@, PdfName::Parent)
                &&& Some(array_view(record.kids@)) == array_in(dict@, PdfName::Kids)
                &&& Some(record.count) == cut_u32(integer_in(dict@, PdfName::Count))
                &&& option_dictionary_view(record.resources) == dictionary_in(
                    dict@,
                    PdfName::Resources,
                )
                &&& option_array_view(record.media_box) == array_in(dict@, PdfName::MediaBox)
                &&& option_array_view(record.crop_box) == array_in(dict@, PdfName::CropBox)
                &&& record.rotate == cut_i32(integer_in(dict@, PdfName::Rotate))
            },
            !is_pages_node(dict@) ==> r == Err::<Pages, PdfError>(invalid_pages()),
    {
        let mut dict = dict;
        let node_type = dict.need_type(PdfName::Pages, PdfError::InvalidPdf("invalid pages"));
        let parent = dict.want_reference(PdfName::Parent);
        let kids = dict.need_array(PdfName::Kids, PdfError::InvalidPdf("invalid pages"));
        let count = dict.need_u32(PdfName::Count, PdfError::InvalidPdf("invalid pages"));
        let resources = dict.want_dictionary(PdfName::Resources);
        let media_box = dict.want_array(PdfName::MediaBox);
        let crop_box = dict.want_array(PdfName::CropBox);
        let rotate = dict.want_i32(PdfName::Rotate);
        Ok(
            Pages {
                node_type: node_type?,
                parent,
                kids: kids?,
                count: count?,
                resources,
                media_box,
                crop_box,
                rotate,
            },
        )
    }

    /// Builds a node below `parent` from its dictionary.  What the node
    /// does not say itself of resources, boxes and rotation it takes from `parent`.
    pub fn new(dict: Dictionary, parent: &Pages) -> (r: Result<Pages, PdfError>)
        ensures
            is_pages_node(dict@) ==> {
                &&& r matches Ok(record)
                &&& record.node_type == PdfName::Pages
                &&& record.parent == reference_in(dict@, PdfName::Parent)
                &&& Some(array_view(record.kids@)) == array_in(dict@, PdfName::Kids)
                &&& Some(record.count) == cut_u32(integer_in(dict@, PdfName::Count))
                &&& option_dictionary_view(record.resources) == inherited(
                    dictionary_in(dict@, PdfName::Resources),
                    option_dictionary_view(parent.resources),
                )
                &&& option_array_view(record.media_box) == inherited(
                    array_in(dict@, PdfName::MediaBox),
                    option_array_view(parent.media_box),
                )
                &&& option_array_view(record.crop_box) == inherited(
                    array_in(dict@, PdfName::CropBox),
                    option_array_view(parent.crop_box),
                )
                &&& record.rotate == inherited(
                    cut_i32(integer_in(dict@, PdfName::Rotate)),
                    parent.rotate,
                )
            },
            !is_pages_node(dict@) ==> r == Err::<Pages, PdfError>(invalid_pages()),
    {
        let mut dict = dict;
        let resources = match dict.want_dictionary(PdfName::Resources) {
            Some(own) => Some(own),
            None => copy_option_dictionary(&parent.resources),
        };
        let media_box = match dict.want_array(PdfName::MediaBox) {
            Some(own) => Some(own),
            None => copy_option_array(&parent.media_box),
        };
        let crop_box = match dict.want_array(PdfName::CropBox) {
            Some(own) => Some(own),
            None => copy_option_array(&parent.crop_box),
        };
        let rotate = match dict.want_i32(PdfName::Rotate) {
            Some(own) => Some(own),
            None => parent.rotate,
        };
        let node_type = dict.need_type(PdfName::Pages, PdfError::InvalidPdf("invalid pages"));
        let up = dict.want_reference(PdfName::Parent);
        let kids = dict.need_array(PdfName::Kids, PdfError::InvalidPdf("invalid pages"));
        let count = dict.need_u32(PdfName::Count, PdfError::InvalidPdf("invalid pages"));
        Ok(
            Pages {
                node_type: node_type?,
                parent: up,
                kids: kids?,
                count: count?,
                resources,
                media_box,
                crop_box,
                rotate,
            },
        )
    }
}

/// A page.  The entries that hold streams are not read and stay empty.
pub struct Page {
    pub page_type: PdfName,
    pub parent: Reference,
    pub last_modified: Option<PdfString>,
    pub resources: Dictionary,
    pub media_box: Array,
    pub crop_box: Option<Array>,
    pub bleed_box: Option<Array>,
    pub trim_box: Option<Array>,
    pub art_box: Option<Array>,
    pub box_color_info: Option<Dictionary>,
    pub contents: Option<PdfObject>,
    pub rotate: Option<i32>,
    pub group: Option<Dictionary>,
    pub thumb: Option<PdfObject>,
    pub dur: Option<PdfNumber>,
    pub trans: Option<Dictionary>,
    pub annots: Option<Array>,
    pub aa: Option<Dictionary>,
    pub metadata: Option<PdfObject>,
    pub piece_info: Option<Dictionary>,
    pub struct_parents: Option<i32>,
    pub id: Option<PdfString>,
    pub pz: Option<PdfNumber>,
    pub separation_info: Option<Dictionary>,
    pub tabs: Option<PdfName>,
    pub template_instantiated: Option<PdfString>,
    pub pres_steps: Option<Dictionary>,
    pub user_unit: Option<PdfNumber>,
    pub vp: Option<Dictionary>,
}

/// Whether a dictionary below `parent` has what a page must have: its type,
/// its parent, and resources and a media box of its own or handed down.
pub open spec fn is_page(dict: Map<PdfName, ObjectView>, parent: Pages) -> bool {
    &&& name_in(dict, PdfName::Type) == Some(PdfName::Page)
    &&& reference_in(dict, PdfName::Parent) is Some
    &&& dictionary_in(dict, PdfName::Resources) is Some || parent.resources is Some
    &&& array_in(dict, PdfName::MediaBox) is Some || parent.media_box is Some
}

impl Page {
    /// Builds a page below `parent` from its dictionary.
    pub fn new(dict: Dictionary, parent: &Pages) -> (r: Result<Page, PdfError>)
        ensures
            is_page(dict@, *parent) ==> {
                &&& r matches Ok(record)
                &&& record.page_type == PdfName::Page
                &&& Some(record.parent) == reference_in(dict@, PdfName::Parent)
                &&& Some(record.resources@) == inherited(
                    dictionary_in(dict@, PdfName::Resources),
                    option_dictionary_view(parent.resources),
                )
                &&& Some(array_view(record.media_box@)) == inherited(
                    array_in(dict@, PdfName::MediaBox),
                    option_array_view(parent.media_box),
                )
                &&& option_array_view(record.crop_box) == inherited(
                    array_in(dict@, PdfName::CropBox),
                    option_array_view(parent.crop_box),
                )
                &&& record.rotate == inherited(
                    cut_i32(integer_in(dict@, PdfName::Rotate)),
                    parent.rotate,
                )
                &&& record.contents is None
                &&& record.thumb is None
                &&& record.metadata is None
                &&& option_bytes_view(record.last_modified) == string_in(dict@, PdfName::LastModified)
                &&& option_array_view(record.bleed_box) == array_in(dict@, PdfName::BleedBox)
                &&& option_array_view(record.trim_box) == array_in(dict@, PdfName::TrimBox)
                &&& option_array_view(record.art_box) == array_in(dict@, PdfName::ArtBox)
                &&& option_dictionary_view(record.box_color_info) == dictionary_in(dict@, PdfName::BoxColorInfo)
                &&& option_dictionary_view(record.group) == dictionary_in(dict@, PdfName::Group)
                &&& option_number_view(record.dur) == number_in(dict@, PdfName::Dur)
                &&& option_dictionary_view(record.trans) == dictionary_in(dict@, PdfName::Trans)
                &&& option_array_view(record.annots) == array_in(dict@, PdfName::Annots)
                &&& option_dictionary_view(record.aa) == dictionary_in(dict@, PdfName::AA)
                &&& option_dictionary_view(record.piece_info) == dictionary_in(dict@, PdfName::PieceInfo)
                &&& record.struct_parents == cut_i32(integer_in(dict@, PdfName::StructParents))
                &&& option_bytes_view(record.id) == string_in(dict@, PdfName::ID)
                &&& option_number_view(record.pz) == number_in(dict@, PdfName::PZ)
                &&& option_dictionary_view(record.separation_info) == dictionary_in(dict@, PdfName::SeparationInfo)
                &&& record.tabs == name_in(dict@, PdfName::Tabs)
                &&& option_bytes_view(record.template_instantiated) == symbol_in(dict@, PdfName::TemplateInstantiated)
                &&& option_dictionary_view(record.pres_steps) == dictionary_in(dict@, PdfName::PresSteps)
                &&& option_number_view(record.user_unit) == number_in(dict@, PdfName::UserUnit)
                &&& option_dictionary_view(record.vp) == dictionary_in(dict@, PdfName::VP)
            },
            !is_page(dict@, *parent) ==> r == Err::<Page, PdfError>(invalid_page()),
    {
        let mut dict = dict;
        let resources = match dict.want_dictionary(PdfName::Resources) {
            Some(own) => Some(own),
            None => copy_option_dictionary(&parent.resources),
        };
        let media_box = match dict.want_array(PdfName::MediaBox) {
            Some(own) => Some(own),
            None => copy_option_array(&parent.media_box),
        };
        let crop_box = match dict.want_array(PdfName::CropBox) {
            Some(own) => Some(own),
            None => copy_option_array(&parent.crop_box),
        };
        let rotate = match dict.want_i32(PdfName::Rotate) {
            Some(own) => Some(own),
            None => parent.rotate,
        };
        let page_type = dict.need_type(PdfName::Page, PdfError::InvalidPdf("invalid page"));
        let up = dict.need_reference(PdfName::Parent, PdfError::InvalidPdf("invalid page"));
        let last_modified = dict.want_string(PdfName::LastModified);
        let bleed_box = dict.want_array(PdfName::BleedBox);
        let trim_box = dict.want_array(PdfName::TrimBox);
        let art_box = dict.want_array(PdfName::ArtBox);
        let box_color_info = dict.want_dictionary(PdfName::BoxColorInfo);
        let group = dict.want_dictionary(PdfName::Group);
        let dur = dict.want_number(PdfName::Dur);
        let trans = dict.want_dictionary(PdfName::Trans);
        let annots = dict.want_array(PdfName::Annots);
        let aa = dict.want_dictionary(PdfName::AA);
        let piece_info = dict.want_dictionary(PdfName::PieceInfo);
        let struct_parents = dict.want_i32(PdfName::StructParents);
        let id = dict.want_string(PdfName::ID);
        let pz = dict.want_number(PdfName::PZ);
        let separation_info = dict.want_dictionary(PdfName::SeparationInfo);
        let tabs = dict.want_name(PdfName::Tabs);
        let template_instantiated = dict.want_symbol(PdfName::TemplateInstantiated);
        let pres_steps = dict.want_dictionary(PdfName::PresSteps);
        let user_unit = dict.want_number(PdfName::UserUnit);
        let vp = dict.want_dictionary(PdfName::VP);
        let resources = match resources {
            Some(found) => found,
            None => {
                return Err(PdfError::InvalidPdf("invalid page"));
            },
        };
        let media_box = match media_box {
            Some(found) => found,
            None => {
                return Err(PdfError::InvalidPdf("invalid page"));
            },
        };
        Ok(
            Page {
                page_type: page_type?,
                parent: up?,
                last_modified,
                resources,
                media_box,
                crop_box,
                bleed_box,
                trim_box,
                art_box,
                box_color_info,
                contents: None,
                rotate,
                group,
                thumb: None,
                dur,
                trans,
                annots,
                aa,
                metadata: None,
                piece_info,
                struct_parents,
                id,
                pz,
                separation_info,
                tabs,
                template_instantiated,
                pres_steps,
                user_unit,
                vp,
            },
        )
    }
}

} // verus!
