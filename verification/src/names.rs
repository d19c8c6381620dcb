//! The closed sets of keywords and well-known names, with their spellings.
//!
//! Lookup is by exact spelling, so it tells upper case from lower case.

use vstd::prelude::*;
use vstd::string::*;
use vstd::utf8::is_ascii_chars;
use crate::next_token::{is_digit, is_letter};

verus! {

/// The bytes of a text whose characters all lie below 256.
pub open spec fn ascii(text: Seq<char>) -> Seq<u8> {
    Seq::new(text.len(), |i: int| text[i] as u8)
}

/// Whether every byte is a letter.
pub open spec fn letters_only(bytes: Seq<u8>) -> bool {
    forall|i: int| 0 <= i < bytes.len() ==> is_letter(#[trigger] bytes[i])
}

/// Whether every byte is a letter or a digit.
pub open spec fn letters_and_digits(bytes: Seq<u8>) -> bool {
    forall|i: int| 0 <= i < bytes.len() ==> is_letter(#[trigger] bytes[i]) || is_digit(bytes[i])
}

/// The keywords: the structural words of a file and the operators of a
/// content stream that are spelled with letters alone.  `Unknown` stands for
/// every other run of letters.
#[allow(non_camel_case_types)]
#[derive(Debug, Clone, Copy, PartialEq, Eq, Structural, Hash)]
pub enum PdfKeyword {
    obj,
    endobj,
    stream,
    endstream,
    xref,
    trailer,
    startxref,
    R,
    n,
    f,
    True,
    False,
    null,
    b,
    B,
    BDC,
    BI,
    BMC,
    BT,
    BX,
    c,
    cm,
    CS,
    cs,
    d,
    Do,
    DP,
    EI,
    EMC,
    ET,
    EX,
    F,
    g,
    G,
    gs,
    h,
    i,
    ID,
    j,
    J,
    K,
    k,
    l,
    m,
    M,
    MP,
    q,
    Q,
    re,
    RG,
    rg,
    ri,
    s,
    S,
    SC,
    sc,
    SCN,
    scn,
    sh,
    Tc,
    Td,
    TD,
    Tf,
    Tj,
    TJ,
    TL,
    Tm,
    Tr,
    Ts,
    Tw,
    Tz,
    v,
    w,
    W,
    y,
    Unknown,
}

/// The well-known names.
#[derive(Debug, Clone, Copy, PartialEq, Eq, Structural, Hash)]
pub enum PdfName {
    AA,
    ASCII85Decode,
    ASCIIHexDecode,
    AcroForm,
    Annots,
    ArtBox,
    BaseFont,
    BleedBox,
    BoxColorInfo,
    CCITTFaxDecode,
    Catalog,
    Collection,
    ColorSpace,
    Contents,
    Count,
    CropBox,
    Crypt,
    DCTDecode,
    DecodeParms,
    Dests,
    Dur,
    Encrypt,
    ExtGState,
    Extensions,
    Filter,
    FlateDecode,
    Font,
    Group,
    ID,
    Info,
    JBIG2Decode,
    Kids,
    LZWDecode,
    Lang,
    LastModified,
    Legal,
    Length,
    MarkInfo,
    MediaBox,
    Metadata,
    Names,
    NeedsRendering,
    OCProperties,
    OpenAction,
    Outlines,
    OutputIntents,
    PZ,
    Page,
    PageLabels,
    PageLayout,
    PageMode,
    Pages,
    Parent,
    Perms,
    PieceInfo,
    PresSteps,
    Prev,
    ProcSet,
    Requirements,
    Resources,
    Root,
    Rotate,
    RunLengthDecode,
    SeparationInfo,
    Size,
    SpiderInfo,
    StructParents,
    StructTreeRoot,
    Subtype,
    Tabs,
    TemplateInstantiated,
    Threads,
    Thumb,
    Trans,
    TrimBox,
    Type,
    URI,
    UserUnit,
    VP,
    Version,
    ViewerPreferences,
    XObject,
}

impl PdfKeyword {
    /// How the keyword is written.
    pub open spec fn spelling(self) -> Seq<char> {
        match self {
            PdfKeyword::obj => "obj"@,
            PdfKeyword::endobj => "endobj"@,
            PdfKeyword::stream => "stream"@,
            PdfKeyword::endstream => "endstream"@,
            PdfKeyword::xref => "xref"@,
            PdfKeyword::trailer => "trailer"@,
            PdfKeyword::startxref => "startxref"@,
            PdfKeyword::R => "R"@,
            PdfKeyword::n => "n"@,
            PdfKeyword::f => "f"@,
            PdfKeyword::True => "true"@,
            PdfKeyword::False => "false"@,
            PdfKeyword::null => "null"@,
            PdfKeyword::b => "b"@,
            PdfKeyword::B => "B"@,
            PdfKeyword::BDC => "BDC"@,
            PdfKeyword::BI => "BI"@,
            PdfKeyword::BMC => "BMC"@,
            PdfKeyword::BT => "BT"@,
            PdfKeyword::BX => "BX"@,
            PdfKeyword::c => "c"@,
            PdfKeyword::cm => "cm"@,
            PdfKeyword::CS => "CS"@,
            PdfKeyword::cs => "cs"@,
            PdfKeyword::d => "d"@,
            PdfKeyword::Do => "Do"@,
            PdfKeyword::DP => "DP"@,
            PdfKeyword::EI => "EI"@,
            PdfKeyword::EMC => "EMC"@,
            PdfKeyword::ET => "ET"@,
            PdfKeyword::EX => "EX"@,
            PdfKeyword::F => "F"@,
            PdfKeyword::g => "g"@,
            PdfKeyword::G => "G"@,
            PdfKeyword::gs => "gs"@,
            PdfKeyword::h => "h"@,
            PdfKeyword::i => "i"@,
            PdfKeyword::ID => "ID"@,
            PdfKeyword::j => "j"@,
            PdfKeyword::J => "J"@,
            PdfKeyword::K => "K"@,
            PdfKeyword::k => "k"@,
            PdfKeyword::l => "l"@,
            PdfKeyword::m => "m"@,
            PdfKeyword::M => "M"@,
            PdfKeyword::MP => "MP"@,
            PdfKeyword::q => "q"@,
            PdfKeyword::Q => "Q"@,
            PdfKeyword::re => "re"@,
            PdfKeyword::RG => "RG"@,
            PdfKeyword::rg => "rg"@,
            PdfKeyword::ri => "ri"@,
            PdfKeyword::s => "s"@,
            PdfKeyword::S => "S"@,
            PdfKeyword::SC => "SC"@,
            PdfKeyword::sc => "sc"@,
            PdfKeyword::SCN => "SCN"@,
            PdfKeyword::scn => "scn"@,
            PdfKeyword::sh => "sh"@,
            PdfKeyword::Tc => "Tc"@,
            PdfKeyword::Td => "Td"@,
            PdfKeyword::TD => "TD"@,
            PdfKeyword::Tf => "Tf"@,
            PdfKeyword::Tj => "Tj"@,
            PdfKeyword::TJ => "TJ"@,
            PdfKeyword::TL => "TL"@,
            PdfKeyword::Tm => "Tm"@,
            PdfKeyword::Tr => "Tr"@,
            PdfKeyword::Ts => "Ts"@,
            PdfKeyword::Tw => "Tw"@,
            PdfKeyword::Tz => "Tz"@,
            PdfKeyword::v => "v"@,
            PdfKeyword::w => "w"@,
            PdfKeyword::W => "W"@,
            PdfKeyword::y => "y"@,
            PdfKeyword::Unknown => "Unknown"@,
        }
    }

    /// The spelling as bytes.
    pub open spec fn bytes(self) -> Seq<u8> {
        ascii(self.spelling())
    }

    /// The keyword as text.
    pub fn text(self) -> (s: &'static str)
        ensures
            s@ == self.spelling(),
            s.spec_bytes() == self.bytes(),
    {
        let s = match self {
            PdfKeyword::obj => "obj",
            PdfKeyword::endobj => "endobj",
            PdfKeyword::stream => "stream",
            PdfKeyword::endstream => "endstream",
            PdfKeyword::xref => "xref",
            PdfKeyword::trailer => "trailer",
            PdfKeyword::startxref => "startxref",
            PdfKeyword::R => "R",
            PdfKeyword::n => "n",
            PdfKeyword::f => "f",
            PdfKeyword::True => "true",
            PdfKeyword::False => "false",
            PdfKeyword::null => "null",
            PdfKeyword::b => "b",
            PdfKeyword::B => "B",
            PdfKeyword::BDC => "BDC",
            PdfKeyword::BI => "BI",
            PdfKeyword::BMC => "BMC",
            PdfKeyword::BT => "BT",
            PdfKeyword::BX => "BX",
            PdfKeyword::c => "c",
            PdfKeyword::cm => "cm",
            PdfKeyword::CS => "CS",
            PdfKeyword::cs => "cs",
            PdfKeyword::d => "d",
            PdfKeyword::Do => "Do",
            PdfKeyword::DP => "DP",
            PdfKeyword::EI => "EI",
            PdfKeyword::EMC => "EMC",
            PdfKeyword::ET => "ET",
            PdfKeyword::EX => "EX",
            PdfKeyword::F => "F",
            PdfKeyword::g => "g",
            PdfKeyword::G => "G",
            PdfKeyword::gs => "gs",
            PdfKeyword::h => "h",
            PdfKeyword::i => "i",
            PdfKeyword::ID => "ID",
            PdfKeyword::j => "j",
            PdfKeyword::J => "J",
            PdfKeyword::K => "K",
            PdfKeyword::k => "k",
            PdfKeyword::l => "l",
            PdfKeyword::m => "m",
            PdfKeyword::M => "M",
            PdfKeyword::MP => "MP",
            PdfKeyword::q => "q",
            PdfKeyword::Q => "Q",
            PdfKeyword::re => "re",
            PdfKeyword::RG => "RG",
            PdfKeyword::rg => "rg",
            PdfKeyword::ri => "ri",
            PdfKeyword::s => "s",
            PdfKeyword::S => "S",
            PdfKeyword::SC => "SC",
            PdfKeyword::sc => "sc",
            PdfKeyword::SCN => "SCN",
            PdfKeyword::scn => "scn",
            PdfKeyword::sh => "sh",
            PdfKeyword::Tc => "Tc",
            PdfKeyword::Td => "Td",
            PdfKeyword::TD => "TD",
            PdfKeyword::Tf => "Tf",
            PdfKeyword::Tj => "Tj",
            PdfKeyword::TJ => "TJ",
            PdfKeyword::TL => "TL",
            PdfKeyword::Tm => "Tm",
            PdfKeyword::Tr => "Tr",
            PdfKeyword::Ts => "Ts",
            PdfKeyword::Tw => "Tw",
            PdfKeyword::Tz => "Tz",
            PdfKeyword::v => "v",
            PdfKeyword::w => "w",
            PdfKeyword::W => "W",
            PdfKeyword::y => "y",
            PdfKeyword::Unknown => "Unknown",
        };
        proof {
            lemma_keyword_spellings();
            is_ascii_spec_bytes(s);
        }
        s
    }
}

impl PdfName {
    /// How the name is written, without the leading solidus.
    pub open spec fn spelling(self) -> Seq<char> {
        match self {
            PdfName::AA => "AA"@,
            PdfName::ASCII85Decode => "ASCII85Decode"@,
            PdfName::ASCIIHexDecode => "ASCIIHexDecode"@,
            PdfName::AcroForm => "AcroForm"@,
            PdfName::Annots => "Annots"@,
            PdfName::ArtBox => "ArtBox"@,
            PdfName::BaseFont => "BaseFont"@,
            PdfName::BleedBox => "BleedBox"@,
            PdfName::BoxColorInfo => "BoxColorInfo"@,
            PdfName::CCITTFaxDecode => "CCITTFaxDecode"@,
            PdfName::Catalog => "Catalog"@,
            PdfName::Collection => "Collection"@,
            PdfName::ColorSpace => "ColorSpace"@,
            PdfName::Contents => "Contents"@,
            PdfName::Count => "Count"@,
            PdfName::CropBox => "CropBox"@,
            PdfName::Crypt => "Crypt"@,
            PdfName::DCTDecode => "DCTDecode"@,
            PdfName::DecodeParms => "DecodeParms"@,
            PdfName::Dests => "Dests"@,
            PdfName::Dur => "Dur"@,
            PdfName::Encrypt => "Encrypt"@,
            PdfName::ExtGState => "ExtGState"@,
            PdfName::Extensions => "Extensions"@,
            PdfName::Filter => "Filter"@,
            PdfName::FlateDecode => "FlateDecode"@,
            PdfName::Font => "Font"@,
            PdfName::Group => "Group"@,
            PdfName::ID => "ID"@,
            PdfName::Info => "Info"@,
            PdfName::JBIG2Decode => "JBIG2Decode"@,
            PdfName::Kids => "Kids"@,
            PdfName::LZWDecode => "LZWDecode"@,
            PdfName::Lang => "Lang"@,
            PdfName::LastModified => "LastModified"@,
            PdfName::Legal => "Legal"@,
            PdfName::Length => "Length"@,
            PdfName::MarkInfo => "MarkInfo"@,
            PdfName::MediaBox => "MediaBox"@,
            PdfName::Metadata => "Metadata"@,
            PdfName::Names => "Names"@,
            PdfName::NeedsRendering => "NeedsRendering"@,
            PdfName::OCProperties => "OCProperties"@,
            PdfName::OpenAction => "OpenAction"@,
            PdfName::Outlines => "Outlines"@,
            PdfName::OutputIntents => "OutputIntents"@,
            PdfName::PZ => "PZ"@,
            PdfName::Page => "Page"@,
            PdfName::PageLabels => "PageLabels"@,
            PdfName::PageLayout => "PageLayout"@,
            PdfName::PageMode => "PageMode"@,
            PdfName::Pages => "Pages"@,
            PdfName::Parent => "Parent"@,
            PdfName::Perms => "Perms"@,
            PdfName::PieceInfo => "PieceInfo"@,
            PdfName::PresSteps => "PresSteps"@,
            PdfName::Prev => "Prev"@,
            PdfName::ProcSet => "ProcSet"@,
            PdfName::Requirements => "Requirements"@,
            PdfName::Resources => "Resources"@,
            PdfName::Root => "Root"@,
            PdfName::Rotate => "Rotate"@,
            PdfName::RunLengthDecode => "RunLengthDecode"@,
            PdfName::SeparationInfo => "SeparationInfo"@,
            PdfName::Size => "Size"@,
            PdfName::SpiderInfo => "SpiderInfo"@,
            PdfName::StructParents => "StructParents"@,
            PdfName::StructTreeRoot => "StructTreeRoot"@,
            PdfName::Subtype => "Subtype"@,
            PdfName::Tabs => "Tabs"@,
            PdfName::TemplateInstantiated => "TemplateInstantiated"@,
            PdfName::Threads => "Threads"@,
            PdfName::Thumb => "Thumb"@,
            PdfName::Trans => "Trans"@,
            PdfName::TrimBox => "TrimBox"@,
            PdfName::Type => "Type"@,
            PdfName::URI => "URI"@,
            PdfName::UserUnit => "UserUnit"@,
            PdfName::VP => "VP"@,
            PdfName::Version => "Version"@,
            PdfName::ViewerPreferences => "ViewerPreferences"@,
            PdfName::XObject => "XObject"@,
        }
    }

    /// The spelling as bytes.
    pub open spec fn bytes(self) -> Seq<u8> {
        ascii(self.spelling())
    }

    /// The name as text.
    pub fn text(self) -> (s: &'static str)
        ensures
            s@ == self.spelling(),
            s.spec_bytes() == self.bytes(),
    {
        let s = match self {
            PdfName::AA => "AA",
            PdfName::ASCII85Decode => "ASCII85Decode",
            PdfName::ASCIIHexDecode => "ASCIIHexDecode",
            PdfName::AcroForm => "AcroForm",
            PdfName::Annots => "Annots",
            PdfName::ArtBox => "ArtBox",
            PdfName::BaseFont => "BaseFont",
            PdfName::BleedBox => "BleedBox",
            PdfName::BoxColorInfo => "BoxColorInfo",
            PdfName::CCITTFaxDecode => "CCITTFaxDecode",
            PdfName::Catalog => "Catalog",
            PdfName::Collection => "Collection",
            PdfName::ColorSpace => "ColorSpace",
            PdfName::Contents => "Contents",
            PdfName::Count => "Count",
            PdfName::CropBox => "CropBox",
            PdfName::Crypt => "Crypt",
            PdfName::DCTDecode => "DCTDecode",
            PdfName::DecodeParms => "DecodeParms",
            PdfName::Dests => "Dests",
            PdfName::Dur => "Dur",
            PdfName::Encrypt => "Encrypt",
            PdfName::ExtGState => "ExtGState",
            PdfName::Extensions => "Extensions",
            PdfName::Filter => "Filter",
            PdfName::FlateDecode => "FlateDecode",
            PdfName::Font => "Font",
            PdfName::Group => "Group",
            PdfName::ID => "ID",
            PdfName::Info => "Info",
            PdfName::JBIG2Decode => "JBIG2Decode",
            PdfName::Kids => "Kids",
            PdfName::LZWDecode => "LZWDecode",
            PdfName::Lang => "Lang",
            PdfName::LastModified => "LastModified",
            PdfName::Legal => "Legal",
            PdfName::Length => "Length",
            PdfName::MarkInfo => "MarkInfo",
            PdfName::MediaBox => "MediaBox",
            PdfName::Metadata => "Metadata",
            PdfName::Names => "Names",
            PdfName::NeedsRendering => "NeedsRendering",
            PdfName::OCProperties => "OCProperties",
            PdfName::OpenAction => "OpenAction",
            PdfName::Outlines => "Outlines",
            PdfName::OutputIntents => "OutputIntents",
            PdfName::PZ => "PZ",
            PdfName::Page => "Page",
            PdfName::PageLabels => "PageLabels",
            PdfName::PageLayout => "PageLayout",
            PdfName::PageMode => "PageMode",
            PdfName::Pages => "Pages",
            PdfName::Parent => "Parent",
            PdfName::Perms => "Perms",
            PdfName::PieceInfo => "PieceInfo",
            PdfName::PresSteps => "PresSteps",
            PdfName::Prev => "Prev",
            PdfName::ProcSet => "ProcSet",
            PdfName::Requirements => "Requirements",
            PdfName::Resources => "Resources",
            PdfName::Root => "Root",
            PdfName::Rotate => "Rotate",
            PdfName::RunLengthDecode => "RunLengthDecode",
            PdfName::SeparationInfo => "SeparationInfo",
            PdfName::Size => "Size",
            PdfName::SpiderInfo => "SpiderInfo",
            PdfName::StructParents => "StructParents",
            PdfName::StructTreeRoot => "StructTreeRoot",
            PdfName::Subtype => "Subtype",
            PdfName::Tabs => "Tabs",
            PdfName::TemplateInstantiated => "TemplateInstantiated",
            PdfName::Threads => "Threads",
            PdfName::Thumb => "Thumb",
            PdfName::Trans => "Trans",
            PdfName::TrimBox => "TrimBox",
            PdfName::Type => "Type",
            PdfName::URI => "URI",
            PdfName::UserUnit => "UserUnit",
            PdfName::VP => "VP",
            PdfName::Version => "Version",
            PdfName::ViewerPreferences => "ViewerPreferences",
            PdfName::XObject => "XObject",
        };
        proof {
            lemma_name_spellings();
            is_ascii_spec_bytes(s);
        }
        s
    }
}

/// The keyword that a run of letters spells; `Unknown` where it spells none.
pub open spec fn keyword_of(lexeme: Seq<u8>) -> PdfKeyword {
    if exists|word: PdfKeyword| word.bytes() == lexeme {
        choose|word: PdfKeyword| word.bytes() == lexeme
    } else {
        PdfKeyword::Unknown
    }
}

/// The well-known name that the bytes spell, if they spell one.
pub open spec fn name_of(lexeme: Seq<u8>) -> Option<PdfName> {
    if exists|n: PdfName| n.bytes() == lexeme {
        Some(choose|n: PdfName| n.bytes() == lexeme)
    } else {
        None
    }
}

/// A letter or a digit.
pub open spec fn is_letter_or_digit(c: u8) -> bool {
    is_letter(c) || is_digit(c)
}

/// Texts of ASCII characters with the same bytes are the same text.
pub proof fn lemma_ascii_injective(a: Seq<char>, b: Seq<char>)
    requires
        is_ascii_chars(a),
        is_ascii_chars(b),
        ascii(a) == ascii(b),
    ensures
        a == b,
{
    assert(a.len() == ascii(a).len());
    assert(b.len() == ascii(b).len());
    assert forall|i: int| 0 <= i < a.len() implies a[i] == b[i] by {
        assert(ascii(a)[i] == a[i] as u8);
        assert(ascii(b)[i] == b[i] as u8);
    }
    assert(a =~= b);
}

/// Every keyword is spelled with ASCII letters, at least one of them, and
/// no two are spelled alike.
pub proof fn lemma_keyword_spellings()
    ensures
        forall|one: PdfKeyword| is_ascii_chars(#[trigger] one.spelling()) && one.spelling().len() > 0,
        forall|one: PdfKeyword| letters_only(#[trigger] one.bytes()),
        forall|one: PdfKeyword, other: PdfKeyword| #[trigger]
            one.bytes() == #[trigger] other.bytes() ==> one == other,
{
    // What each spelling holds, character by character.
    reveal_strlit("obj");
    reveal_strlit("endobj");
    reveal_strlit("stream");
    reveal_strlit("endstream");
    reveal_strlit("xref");
    reveal_strlit("trailer");
    reveal_strlit("startxref");
    reveal_strlit("R");
    reveal_strlit("n");
    reveal_strlit("f");
    reveal_strlit("true");
    reveal_strlit("false");
    reveal_strlit("null");
    reveal_strlit("b");
    reveal_strlit("B");
    reveal_strlit("BDC");
    reveal_strlit("BI");
    reveal_strlit("BMC");
    reveal_strlit("BT");
    reveal_strlit("BX");
    reveal_strlit("c");
    reveal_strlit("cm");
    reveal_strlit("CS");
    reveal_strlit("cs");
    reveal_strlit("d");
    reveal_strlit("Do");
    reveal_strlit("DP");
    reveal_strlit("EI");
    reveal_strlit("EMC");
    reveal_strlit("ET");
    reveal_strlit("EX");
    reveal_strlit("F");
    reveal_strlit("g");
    reveal_strlit("G");
    reveal_strlit("gs");
    reveal_strlit("h");
    reveal_strlit("i");
    reveal_strlit("ID");
    reveal_strlit("j");
    reveal_strlit("J");
    reveal_strlit("K");
    reveal_strlit("k");
    reveal_strlit("l");
    reveal_strlit("m");
    reveal_strlit("M");
    reveal_strlit("MP");
    reveal_strlit("q");
    reveal_strlit("Q");
    reveal_strlit("re");
    reveal_strlit("RG");
    reveal_strlit("rg");
    reveal_strlit("ri");
    reveal_strlit("s");
    reveal_strlit("S");
    reveal_strlit("SC");
    reveal_strlit("sc");
    reveal_strlit("SCN");
    reveal_strlit("scn");
    reveal_strlit("sh");
    reveal_strlit("Tc");
    reveal_strlit("Td");
    reveal_strlit("TD");
    reveal_strlit("Tf");
    reveal_strlit("Tj");
    reveal_strlit("TJ");
    reveal_strlit("TL");
    reveal_strlit("Tm");
    reveal_strlit("Tr");
    reveal_strlit("Ts");
    reveal_strlit("Tw");
    reveal_strlit("Tz");
    reveal_strlit("v");
    reveal_strlit("w");
    reveal_strlit("W");
    reveal_strlit("y");
    reveal_strlit("Unknown");
    // Naming the places up to the longest spelling lets each character be looked up.
    assert forall|one: PdfKeyword| is_ascii_chars(#[trigger] one.spelling()) && one.spelling().len() > 0
        && letters_only(one.bytes()) by {
        let text = one.spelling();
        assert(text.len() <= 9);
        assert(0 < text.len() ==> is_letter(text[0] as u8) && (text[0] as u32) < 128);
        assert(1 < text.len() ==> is_letter(text[1] as u8) && (text[1] as u32) < 128);
        assert(2 < text.len() ==> is_letter(text[2] as u8) && (text[2] as u32) < 128);
        assert(3 < text.len() ==> is_letter(text[3] as u8) && (text[3] as u32) < 128);
        assert(4 < text.len() ==> is_letter(text[4] as u8) && (text[4] as u32) < 128);
        assert(5 < text.len() ==> is_letter(text[5] as u8) && (text[5] as u32) < 128);
        assert(6 < text.len() ==> is_letter(text[6] as u8) && (text[6] as u32) < 128);
        assert(7 < text.len() ==> is_letter(text[7] as u8) && (text[7] as u32) < 128);
        assert(8 < text.len() ==> is_letter(text[8] as u8) && (text[8] as u32) < 128);
        assert forall|i: int| 0 <= i < one.bytes().len() implies is_letter(
            #[trigger] one.bytes()[i],
        ) by {
            assert(one.bytes()[i] == text[i] as u8);
        }
    }
    // Two spellings with the same bytes agree in every place, and no two of the table do.
    assert forall|one: PdfKeyword, other: PdfKeyword| #[trigger]
        one.bytes() == #[trigger] other.bytes() implies one == other by {
        lemma_ascii_injective(one.spelling(), other.spelling());
        let left = one.spelling();
        let right = other.spelling();
        assert(left.len() == right.len());
        assert(0 < left.len() ==> left[0] == right[0]);
        assert(1 < left.len() ==> left[1] == right[1]);
        assert(2 < left.len() ==> left[2] == right[2]);
        assert(3 < left.len() ==> left[3] == right[3]);
        assert(4 < left.len() ==> left[4] == right[4]);
        assert(5 < left.len() ==> left[5] == right[5]);
        assert(6 < left.len() ==> left[6] == right[6]);
        assert(7 < left.len() ==> left[7] == right[7]);
        assert(8 < left.len() ==> left[8] == right[8]);
    }
}

/// Every name is spelled with ASCII letters and digits, at least one of them, and
/// no two are spelled alike.
pub proof fn lemma_name_spellings()
    ensures
        forall|one: PdfName| is_ascii_chars(#[trigger] one.spelling()) && one.spelling().len() > 0,
        forall|one: PdfName| letters_and_digits(#[trigger] one.bytes()),
        forall|one: PdfName, other: PdfName| #[trigger]
            one.bytes() == #[trigger] other.bytes() ==> one == other,
{
    // What each spelling holds, character by character.
    reveal_strlit("AA");
    reveal_strlit("ASCII85Decode");
    reveal_strlit("ASCIIHexDecode");
    reveal_strlit("AcroForm");
    reveal_strlit("Annots");
    reveal_strlit("ArtBox");
    reveal_strlit("BaseFont");
    reveal_strlit("BleedBox");
    reveal_strlit("BoxColorInfo");
    reveal_strlit("CCITTFaxDecode");
    reveal_strlit("Catalog");
    reveal_strlit("Collection");
    reveal_strlit("ColorSpace");
    reveal_strlit("Contents");
    reveal_strlit("Count");
    reveal_strlit("CropBox");
    reveal_strlit("Crypt");
    reveal_strlit("DCTDecode");
    reveal_strlit("DecodeParms");
    reveal_strlit("Dests");
    reveal_strlit("Dur");
    reveal_strlit("Encrypt");
    reveal_strlit("ExtGState");
    reveal_strlit("Extensions");
    reveal_strlit("Filter");
    reveal_strlit("FlateDecode");
    reveal_strlit("Font");
    reveal_strlit("Group");
    reveal_strlit("ID");
    reveal_strlit("Info");
    reveal_strlit("JBIG2Decode");
    reveal_strlit("Kids");
    reveal_strlit("LZWDecode");
    reveal_strlit("Lang");
    reveal_strlit("LastModified");
    reveal_strlit("Legal");
    reveal_strlit("Length");
    reveal_strlit("MarkInfo");
    reveal_strlit("MediaBox");
    reveal_strlit("Metadata");
    reveal_strlit("Names");
    reveal_strlit("NeedsRendering");
    reveal_strlit("OCProperties");
    reveal_strlit("OpenAction");
    reveal_strlit("Outlines");
    reveal_strlit("OutputIntents");
    reveal_strlit("PZ");
    reveal_strlit("Page");
    reveal_strlit("PageLabels");
    reveal_strlit("PageLayout");
    reveal_strlit("PageMode");
    reveal_strlit("Pages");
    reveal_strlit("Parent");
    reveal_strlit("Perms");
    reveal_strlit("PieceInfo");
    reveal_strlit("PresSteps");
    reveal_strlit("Prev");
    reveal_strlit("ProcSet");
    reveal_strlit("Requirements");
    reveal_strlit("Resources");
    reveal_strlit("Root");
    reveal_strlit("Rotate");
    reveal_strlit("RunLengthDecode");
    reveal_strlit("SeparationInfo");
    reveal_strlit("Size");
    reveal_strlit("SpiderInfo");
    reveal_strlit("StructParents");
    reveal_strlit("StructTreeRoot");
    reveal_strlit("Subtype");
    reveal_strlit("Tabs");
    reveal_strlit("TemplateInstantiated");
    reveal_strlit("Threads");
    reveal_strlit("Thumb");
    reveal_strlit("Trans");
    reveal_strlit("TrimBox");
    reveal_strlit("Type");
    reveal_strlit("URI");
    reveal_strlit("UserUnit");
    reveal_strlit("VP");
    reveal_strlit("Version");
    reveal_strlit("ViewerPreferences");
    reveal_strlit("XObject");
    // Naming the places up to the longest spelling lets each character be looked up.
    assert forall|one: PdfName| is_ascii_chars(#[trigger] one.spelling()) && one.spelling().len() > 0
        && letters_and_digits(one.bytes()) by {
        let text = one.spelling();
        assert(text.len() <= 20);
        assert(0 < text.len() ==> is_letter_or_digit(text[0] as u8) && (text[0] as u32) < 128);
        assert(1 < text.len() ==> is_letter_or_digit(text[1] as u8) && (text[1] as u32) < 128);
        assert(2 < text.len() ==> is_letter_or_digit(text[2] as u8) && (text[2] as u32) < 128);
        assert(3 < text.len() ==> is_letter_or_digit(text[3] as u8) && (text[3] as u32) < 128);
        assert(4 < text.len() ==> is_letter_or_digit(text[4] as u8) && (text[4] as u32) < 128);
        assert(5 < text.len() ==> is_letter_or_digit(text[5] as u8) && (text[5] as u32) < 128);
        assert(6 < text.len() ==> is_letter_or_digit(text[6] as u8) && (text[6] as u32) < 128);
        assert(7 < text.len() ==> is_letter_or_digit(text[7] as u8) && (text[7] as u32) < 128);
        assert(8 < text.len() ==> is_letter_or_digit(text[8] as u8) && (text[8] as u32) < 128);
        assert(9 < text.len() ==> is_letter_or_digit(text[9] as u8) && (text[9] as u32) < 128);
        assert(10 < text.len() ==> is_letter_or_digit(text[10] as u8) && (text[10] as u32) < 128);
        assert(11 < text.len() ==> is_letter_or_digit(text[11] as u8) && (text[11] as u32) < 128);
        assert(12 < text.len() ==> is_letter_or_digit(text[12] as u8) && (text[12] as u32) < 128);
        assert(13 < text.len() ==> is_letter_or_digit(text[13] as u8) && (text[13] as u32) < 128);
        assert(14 < text.len() ==> is_letter_or_digit(text[14] as u8) && (text[14] as u32) < 128);
        assert(15 < text.len() ==> is_letter_or_digit(text[15] as u8) && (text[15] as u32) < 128);
        assert(16 < text.len() ==> is_letter_or_digit(text[16] as u8) && (text[16] as u32) < 128);
        assert(17 < text.len() ==> is_letter_or_digit(text[17] as u8) && (text[17] as u32) < 128);
        assert(18 < text.len() ==> is_letter_or_digit(text[18] as u8) && (text[18] as u32) < 128);
        assert(19 < text.len() ==> is_letter_or_digit(text[19] as u8) && (text[19] as u32) < 128);
        assert forall|i: int| 0 <= i < one.bytes().len() implies is_letter_or_digit(
            #[trigger] one.bytes()[i],
        ) by {
            assert(one.bytes()[i] == text[i] as u8);
        }
    }
    // Two spellings with the same bytes agree in every place, and no two of the table do.
    assert forall|one: PdfName, other: PdfName| #[trigger]
        one.bytes() == #[trigger] other.bytes() implies one == other by {
        lemma_ascii_injective(one.spelling(), other.spelling());
        let left = one.spelling();
        let right = other.spelling();
        assert(left.len() == right.len());
        assert(0 < left.len() ==> left[0] == right[0]);
        assert(1 < left.len() ==> left[1] == right[1]);
        assert(2 < left.len() ==> left[2] == right[2]);
        assert(3 < left.len() ==> left[3] == right[3]);
        assert(4 < left.len() ==> left[4] == right[4]);
        assert(5 < left.len() ==> left[5] == right[5]);
        assert(6 < left.len() ==> left[6] == right[6]);
        assert(7 < left.len() ==> left[7] == right[7]);
        assert(8 < left.len() ==> left[8] == right[8]);
        assert(9 < left.len() ==> left[9] == right[9]);
        assert(10 < left.len() ==> left[10] == right[10]);
        assert(11 < left.len() ==> left[11] == right[11]);
        assert(12 < left.len() ==> left[12] == right[12]);
        assert(13 < left.len() ==> left[13] == right[13]);
        assert(14 < left.len() ==> left[14] == right[14]);
        assert(15 < left.len() ==> left[15] == right[15]);
        assert(16 < left.len() ==> left[16] == right[16]);
        assert(17 < left.len() ==> left[17] == right[17]);
        assert(18 < left.len() ==> left[18] == right[18]);
        assert(19 < left.len() ==> left[19] == right[19]);
    }
}

/// Looking up the spelling of a keyword finds that keyword.
pub proof fn lemma_keyword_found(word: PdfKeyword)
    ensures
        keyword_of(word.bytes()) == word,
{
    lemma_keyword_spellings();
}

/// Looking up the spelling of a name finds that name.
pub proof fn lemma_name_found(n: PdfName)
    ensures
        name_of(n.bytes()) == Some(n),
{
    lemma_name_spellings();
}

/// Whether two slices hold the same bytes.
pub fn same_bytes(a: &[u8], b: &[u8]) -> (same: bool)
    ensures
        same == (a@ == b@),
{
    if a.len() != b.len() {
        return false;
    }
    let mut i: usize = 0;
    while i < a.len()
        invariant
            a@.len() == b@.len() == a.len(),
            i <= a.len(),
            a@.subrange(0, i as int) == b@.subrange(0, i as int),
        decreases a.len() - i,
    {
        if a[i] != b[i] {
            return false;
        }
        i = i + 1;
        assert(a@.subrange(0, i as int) =~= a@.subrange(0, i - 1).push(a@[i - 1]));
        assert(b@.subrange(0, i as int) =~= b@.subrange(0, i - 1).push(b@[i - 1]));
    }
    assert(a@ =~= a@.subrange(0, i as int));
    assert(b@ =~= b@.subrange(0, i as int));
    true
}

/// Whether `lexeme` spells `word`.
fn spells_keyword(lexeme: &[u8], word: PdfKeyword) -> (hit: bool)
    ensures
        hit == (lexeme@ == word.bytes()),
{
    same_bytes(lexeme, word.text().as_bytes())
}

/// Whether `lexeme` spells `name`.
fn spells_name(lexeme: &[u8], name: PdfName) -> (hit: bool)
    ensures
        hit == (lexeme@ == name.bytes()),
{
    same_bytes(lexeme, name.text().as_bytes())
}

/// The first keyword, in the order of the table, that `lexeme` spells.
fn find_keyword(lexeme: &[u8]) -> (found: Option<PdfKeyword>)
    ensures
        match found {
            Some(word) => word.bytes() == lexeme@,
            None => forall|word: PdfKeyword| word.bytes() != lexeme@,
        },
{
    if spells_keyword(lexeme, PdfKeyword::obj) {
        return Some(PdfKeyword::obj);
    }
    if spells_keyword(lexeme, PdfKeyword::endobj) {
        return Some(PdfKeyword::endobj);
    }
    if spells_keyword(lexeme, PdfKeyword::stream) {
        return Some(PdfKeyword::stream);
    }
    if spells_keyword(lexeme, PdfKeyword::endstream) {
        return Some(PdfKeyword::endstream);
    }
    if spells_keyword(lexeme, PdfKeyword::xref) {
        return Some(PdfKeyword::xref);
    }
    if spells_keyword(lexeme, PdfKeyword::trailer) {
        return Some(PdfKeyword::trailer);
    }
    if spells_keyword(lexeme, PdfKeyword::startxref) {
        return Some(PdfKeyword::startxref);
    }
    if spells_keyword(lexeme, PdfKeyword::R) {
        return Some(PdfKeyword::R);
    }
    if spells_keyword(lexeme, PdfKeyword::n) {
        return Some(PdfKeyword::n);
    }
    if spells_keyword(lexeme, PdfKeyword::f) {
        return Some(PdfKeyword::f);
    }
    if spells_keyword(lexeme, PdfKeyword::True) {
        return Some(PdfKeyword::True);
    }
    if spells_keyword(lexeme, PdfKeyword::False) {
        return Some(PdfKeyword::False);
    }
    if spells_keyword(lexeme, PdfKeyword::null) {
        return Some(PdfKeyword::null);
    }
    if spells_keyword(lexeme, PdfKeyword::b) {
        return Some(PdfKeyword::b);
    }
    if spells_keyword(lexeme, PdfKeyword::B) {
        return Some(PdfKeyword::B);
    }
    if spells_keyword(lexeme, PdfKeyword::BDC) {
        return Some(PdfKeyword::BDC);
    }
    if spells_keyword(lexeme, PdfKeyword::BI) {
        return Some(PdfKeyword::BI);
    }
    if spells_keyword(lexeme, PdfKeyword::BMC) {
        return Some(PdfKeyword::BMC);
    }
    if spells_keyword(lexeme, PdfKeyword::BT) {
        return Some(PdfKeyword::BT);
    }
    if spells_keyword(lexeme, PdfKeyword::BX) {
        return Some(PdfKeyword::BX);
    }
    if spells_keyword(lexeme, PdfKeyword::c) {
        return Some(PdfKeyword::c);
    }
    if spells_keyword(lexeme, PdfKeyword::cm) {
        return Some(PdfKeyword::cm);
    }
    if spells_keyword(lexeme, PdfKeyword::CS) {
        return Some(PdfKeyword::CS);
    }
    if spells_keyword(lexeme, PdfKeyword::cs) {
        return Some(PdfKeyword::cs);
    }
    if spells_keyword(lexeme, PdfKeyword::d) {
        return Some(PdfKeyword::d);
    }
    if spells_keyword(lexeme, PdfKeyword::Do) {
        return Some(PdfKeyword::Do);
    }
    if spells_keyword(lexeme, PdfKeyword::DP) {
        return Some(PdfKeyword::DP);
    }
    if spells_keyword(lexeme, PdfKeyword::EI) {
        return Some(PdfKeyword::EI);
    }
    if spells_keyword(lexeme, PdfKeyword::EMC) {
        return Some(PdfKeyword::EMC);
    }
    if spells_keyword(lexeme, PdfKeyword::ET) {
        return Some(PdfKeyword::ET);
    }
    if spells_keyword(lexeme, PdfKeyword::EX) {
        return Some(PdfKeyword::EX);
    }
    if spells_keyword(lexeme, PdfKeyword::F) {
        return Some(PdfKeyword::F);
    }
    if spells_keyword(lexeme, PdfKeyword::g) {
        return Some(PdfKeyword::g);
    }
    if spells_keyword(lexeme, PdfKeyword::G) {
        return Some(PdfKeyword::G);
    }
    if spells_keyword(lexeme, PdfKeyword::gs) {
        return Some(PdfKeyword::gs);
    }
    if spells_keyword(lexeme, PdfKeyword::h) {
        return Some(PdfKeyword::h);
    }
    if spells_keyword(lexeme, PdfKeyword::i) {
        return Some(PdfKeyword::i);
    }
    if spells_keyword(lexeme, PdfKeyword::ID) {
        return Some(PdfKeyword::ID);
    }
    if spells_keyword(lexeme, PdfKeyword::j) {
        return Some(PdfKeyword::j);
    }
    if spells_keyword(lexeme, PdfKeyword::J) {
        return Some(PdfKeyword::J);
    }
    if spells_keyword(lexeme, PdfKeyword::K) {
        return Some(PdfKeyword::K);
    }
    if spells_keyword(lexeme, PdfKeyword::k) {
        return Some(PdfKeyword::k);
    }
    if spells_keyword(lexeme, PdfKeyword::l) {
        return Some(PdfKeyword::l);
    }
    if spells_keyword(lexeme, PdfKeyword::m) {
        return Some(PdfKeyword::m);
    }
    if spells_keyword(lexeme, PdfKeyword::M) {
        return Some(PdfKeyword::M);
    }
    if spells_keyword(lexeme, PdfKeyword::MP) {
        return Some(PdfKeyword::MP);
    }
    if spells_keyword(lexeme, PdfKeyword::q) {
        return Some(PdfKeyword::q);
    }
    if spells_keyword(lexeme, PdfKeyword::Q) {
        return Some(PdfKeyword::Q);
    }
    if spells_keyword(lexeme, PdfKeyword::re) {
        return Some(PdfKeyword::re);
    }
    if spells_keyword(lexeme, PdfKeyword::RG) {
        return Some(PdfKeyword::RG);
    }
    if spells_keyword(lexeme, PdfKeyword::rg) {
        return Some(PdfKeyword::rg);
    }
    if spells_keyword(lexeme, PdfKeyword::ri) {
        return Some(PdfKeyword::ri);
    }
    if spells_keyword(lexeme, PdfKeyword::s) {
        return Some(PdfKeyword::s);
    }
    if spells_keyword(lexeme, PdfKeyword::S) {
        return Some(PdfKeyword::S);
    }
    if spells_keyword(lexeme, PdfKeyword::SC) {
        return Some(PdfKeyword::SC);
    }
    if spells_keyword(lexeme, PdfKeyword::sc) {
        return Some(PdfKeyword::sc);
    }
    if spells_keyword(lexeme, PdfKeyword::SCN) {
        return Some(PdfKeyword::SCN);
    }
    if spells_keyword(lexeme, PdfKeyword::scn) {
        return Some(PdfKeyword::scn);
    }
    if spells_keyword(lexeme, PdfKeyword::sh) {
        return Some(PdfKeyword::sh);
    }
    if spells_keyword(lexeme, PdfKeyword::Tc) {
        return Some(PdfKeyword::Tc);
    }
    if spells_keyword(lexeme, PdfKeyword::Td) {
        return Some(PdfKeyword::Td);
    }
    if spells_keyword(lexeme, PdfKeyword::TD) {
        return Some(PdfKeyword::TD);
    }
    if spells_keyword(lexeme, PdfKeyword::Tf) {
        return Some(PdfKeyword::Tf);
    }
    if spells_keyword(lexeme, PdfKeyword::Tj) {
        return Some(PdfKeyword::Tj);
    }
    if spells_keyword(lexeme, PdfKeyword::TJ) {
        return Some(PdfKeyword::TJ);
    }
    if spells_keyword(lexeme, PdfKeyword::TL) {
        return Some(PdfKeyword::TL);
    }
    if spells_keyword(lexeme, PdfKeyword::Tm) {
        return Some(PdfKeyword::Tm);
    }
    if spells_keyword(lexeme, PdfKeyword::Tr) {
        return Some(PdfKeyword::Tr);
    }
    if spells_keyword(lexeme, PdfKeyword::Ts) {
        return Some(PdfKeyword::Ts);
    }
    if spells_keyword(lexeme, PdfKeyword::Tw) {
        return Some(PdfKeyword::Tw);
    }
    if spells_keyword(lexeme, PdfKeyword::Tz) {
        return Some(PdfKeyword::Tz);
    }
    if spells_keyword(lexeme, PdfKeyword::v) {
        return Some(PdfKeyword::v);
    }
    if spells_keyword(lexeme, PdfKeyword::w) {
        return Some(PdfKeyword::w);
    }
    if spells_keyword(lexeme, PdfKeyword::W) {
        return Some(PdfKeyword::W);
    }
    if spells_keyword(lexeme, PdfKeyword::y) {
        return Some(PdfKeyword::y);
    }
    if spells_keyword(lexeme, PdfKeyword::Unknown) {
        return Some(PdfKeyword::Unknown);
    }
    None
}

/// The first name, in the order of the table, that `lexeme` spells.
fn find_name(lexeme: &[u8]) -> (found: Option<PdfName>)
    ensures
        match found {
            Some(n) => n.bytes() == lexeme@,
            None => forall|n: PdfName| n.bytes() != lexeme@,
        },
{
    if spells_name(lexeme, PdfName::AA) {
        return Some(PdfName::AA);
    }
    if spells_name(lexeme, PdfName::ASCII85Decode) {
        return Some(PdfName::ASCII85Decode);
    }
    if spells_name(lexeme, PdfName::ASCIIHexDecode) {
        return Some(PdfName::ASCIIHexDecode);
    }
    if spells_name(lexeme, PdfName::AcroForm) {
        return Some(PdfName::AcroForm);
    }
    if spells_name(lexeme, PdfName::Annots) {
        return Some(PdfName::Annots);
    }
    if spells_name(lexeme, PdfName::ArtBox) {
        return Some(PdfName::ArtBox);
    }
    if spells_name(lexeme, PdfName::BaseFont) {
        return Some(PdfName::BaseFont);
    }
    if spells_name(lexeme, PdfName::BleedBox) {
        return Some(PdfName::BleedBox);
    }
    if spells_name(lexeme, PdfName::BoxColorInfo) {
        return Some(PdfName::BoxColorInfo);
    }
    if spells_name(lexeme, PdfName::CCITTFaxDecode) {
        return Some(PdfName::CCITTFaxDecode);
    }
    if spells_name(lexeme, PdfName::Catalog) {
        return Some(PdfName::Catalog);
    }
    if spells_name(lexeme, PdfName::Collection) {
        return Some(PdfName::Collection);
    }
    if spells_name(lexeme, PdfName::ColorSpace) {
        return Some(PdfName::ColorSpace);
    }
    if spells_name(lexeme, PdfName::Contents) {
        return Some(PdfName::Contents);
    }
    if spells_name(lexeme, PdfName::Count) {
        return Some(PdfName::Count);
    }
    if spells_name(lexeme, PdfName::CropBox) {
        return Some(PdfName::CropBox);
    }
    if spells_name(lexeme, PdfName::Crypt) {
        return Some(PdfName::Crypt);
    }
    if spells_name(lexeme, PdfName::DCTDecode) {
        return Some(PdfName::DCTDecode);
    }
    if spells_name(lexeme, PdfName::DecodeParms) {
        return Some(PdfName::DecodeParms);
    }
    if spells_name(lexeme, PdfName::Dests) {
        return Some(PdfName::Dests);
    }
    if spells_name(lexeme, PdfName::Dur) {
        return Some(PdfName::Dur);
    }
    if spells_name(lexeme, PdfName::Encrypt) {
        return Some(PdfName::Encrypt);
    }
    if spells_name(lexeme, PdfName::ExtGState) {
        return Some(PdfName::ExtGState);
    }
    if spells_name(lexeme, PdfName::Extensions) {
        return Some(PdfName::Extensions);
    }
    if spells_name(lexeme, PdfName::Filter) {
        return Some(PdfName::Filter);
    }
    if spells_name(lexeme, PdfName::FlateDecode) {
        return Some(PdfName::FlateDecode);
    }
    if spells_name(lexeme, PdfName::Font) {
        return Some(PdfName::Font);
    }
    if spells_name(lexeme, PdfName::Group) {
        return Some(PdfName::Group);
    }
    if spells_name(lexeme, PdfName::ID) {
        return Some(PdfName::ID);
    }
    if spells_name(lexeme, PdfName::Info) {
        return Some(PdfName::Info);
    }
    if spells_name(lexeme, PdfName::JBIG2Decode) {
        return Some(PdfName::JBIG2Decode);
    }
    if spells_name(lexeme, PdfName::Kids) {
        return Some(PdfName::Kids);
    }
    if spells_name(lexeme, PdfName::LZWDecode) {
        return Some(PdfName::LZWDecode);
    }
    if spells_name(lexeme, PdfName::Lang) {
        return Some(PdfName::Lang);
    }
    if spells_name(lexeme, PdfName::LastModified) {
        return Some(PdfName::LastModified);
    }
    if spells_name(lexeme, PdfName::Legal) {
        return Some(PdfName::Legal);
    }
    if spells_name(lexeme, PdfName::Length) {
        return Some(PdfName::Length);
    }
    if spells_name(lexeme, PdfName::MarkInfo) {
        return Some(PdfName::MarkInfo);
    }
    if spells_name(lexeme, PdfName::MediaBox) {
        return Some(PdfName::MediaBox);
    }
    if spells_name(lexeme, PdfName::Metadata) {
        return Some(PdfName::Metadata);
    }
    if spells_name(lexeme, PdfName::Names) {
        return Some(PdfName::Names);
    }
    if spells_name(lexeme, PdfName::NeedsRendering) {
        return Some(PdfName::NeedsRendering);
    }
    if spells_name(lexeme, PdfName::OCProperties) {
        return Some(PdfName::OCProperties);
    }
    if spells_name(lexeme, PdfName::OpenAction) {
        return Some(PdfName::OpenAction);
    }
    if spells_name(lexeme, PdfName::Outlines) {
        return Some(PdfName::Outlines);
    }
    if spells_name(lexeme, PdfName::OutputIntents) {
        return Some(PdfName::OutputIntents);
    }
    if spells_name(lexeme, PdfName::PZ) {
        return Some(PdfName::PZ);
    }
    if spells_name(lexeme, PdfName::Page) {
        return Some(PdfName::Page);
    }
    if spells_name(lexeme, PdfName::PageLabels) {
        return Some(PdfName::PageLabels);
    }
    if spells_name(lexeme, PdfName::PageLayout) {
        return Some(PdfName::PageLayout);
    }
    if spells_name(lexeme, PdfName::PageMode) {
        return Some(PdfName::PageMode);
    }
    if spells_name(lexeme, PdfName::Pages) {
        return Some(PdfName::Pages);
    }
    if spells_name(lexeme, PdfName::Parent) {
        return Some(PdfName::Parent);
    }
    if spells_name(lexeme, PdfName::Perms) {
        return Some(PdfName::Perms);
    }
    if spells_name(lexeme, PdfName::PieceInfo) {
        return Some(PdfName::PieceInfo);
    }
    if spells_name(lexeme, PdfName::PresSteps) {
        return Some(PdfName::PresSteps);
    }
    if spells_name(lexeme, PdfName::Prev) {
        return Some(PdfName::Prev);
    }
    if spells_name(lexeme, PdfName::ProcSet) {
        return Some(PdfName::ProcSet);
    }
    if spells_name(lexeme, PdfName::Requirements) {
        return Some(PdfName::Requirements);
    }
    if spells_name(lexeme, PdfName::Resources) {
        return Some(PdfName::Resources);
    }
    if spells_name(lexeme, PdfName::Root) {
        return Some(PdfName::Root);
    }
    if spells_name(lexeme, PdfName::Rotate) {
        return Some(PdfName::Rotate);
    }
    if spells_name(lexeme, PdfName::RunLengthDecode) {
        return Some(PdfName::RunLengthDecode);
    }
    if spells_name(lexeme, PdfName::SeparationInfo) {
        return Some(PdfName::SeparationInfo);
    }
    if spells_name(lexeme, PdfName::Size) {
        return Some(PdfName::Size);
    }
    if spells_name(lexeme, PdfName::SpiderInfo) {
        return Some(PdfName::SpiderInfo);
    }
    if spells_name(lexeme, PdfName::StructParents) {
        return Some(PdfName::StructParents);
    }
    if spells_name(lexeme, PdfName::StructTreeRoot) {
        return Some(PdfName::StructTreeRoot);
    }
    if spells_name(lexeme, PdfName::Subtype) {
        return Some(PdfName::Subtype);
    }
    if spells_name(lexeme, PdfName::Tabs) {
        return Some(PdfName::Tabs);
    }
    if spells_name(lexeme, PdfName::TemplateInstantiated) {
        return Some(PdfName::TemplateInstantiated);
    }
    if spells_name(lexeme, PdfName::Threads) {
        return Some(PdfName::Threads);
    }
    if spells_name(lexeme, PdfName::Thumb) {
        return Some(PdfName::Thumb);
    }
    if spells_name(lexeme, PdfName::Trans) {
        return Some(PdfName::Trans);
    }
    if spells_name(lexeme, PdfName::TrimBox) {
        return Some(PdfName::TrimBox);
    }
    if spells_name(lexeme, PdfName::Type) {
        return Some(PdfName::Type);
    }
    if spells_name(lexeme, PdfName::URI) {
        return Some(PdfName::URI);
    }
    if spells_name(lexeme, PdfName::UserUnit) {
        return Some(PdfName::UserUnit);
    }
    if spells_name(lexeme, PdfName::VP) {
        return Some(PdfName::VP);
    }
    if spells_name(lexeme, PdfName::Version) {
        return Some(PdfName::Version);
    }
    if spells_name(lexeme, PdfName::ViewerPreferences) {
        return Some(PdfName::ViewerPreferences);
    }
    if spells_name(lexeme, PdfName::XObject) {
        return Some(PdfName::XObject);
    }
    None
}

/// Looks a run of letters up among the keywords.
pub fn pdf_keyword(keyword: &[u8]) -> (word: PdfKeyword)
    ensures
        word == keyword_of(keyword@),
{
    proof {
        lemma_keyword_spellings();
    }
    match find_keyword(keyword) {
        Some(word) => word,
        None => PdfKeyword::Unknown,
    }
}

/// Looks a name up among the well-known names.
pub fn pdf_name(name: &[u8]) -> (n: Option<PdfName>)
    ensures
        n == name_of(name@),
{
    proof {
        lemma_name_spellings();
    }
    find_name(name)
}

} // verus!
