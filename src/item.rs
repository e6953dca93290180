//! The item types of the Gopher protocol and their one-character codes.
use vstd::prelude::*;

verus! {

/// The kind of resource that a menu entry or an address points to.
#[derive(Clone, Copy, Debug, PartialEq, Eq, Hash, Structural)]
pub enum GopherItem {
    TextFile,
    Submenu,
    Nameserver,
    Error,
    BinHex,
    Dos,
    UuencodeFile,
    FullTextSearch,
    Telnet,
    BinaryFile,
    Mirror,
    GifFile,
    ImageFile,
    Telnet3270,
    BitmapFile,
    MovieFile,
    SoundFile,
    DocFile,
    HtmlFile,
    Info,
    PngFile,
    RtfFile,
    WavFile,
    PdfFile,
    XmlFile,
    Unknown,
}

/// The item type that a code character selects; every other character is `Unknown`.
pub open spec fn item_of(c: char) -> GopherItem {
    match c {
        '0' => GopherItem::TextFile,
        '1' => GopherItem::Submenu,
        '2' => GopherItem::Nameserver,
        '3' => GopherItem::Error,
        '4' => GopherItem::BinHex,
        '5' => GopherItem::Dos,
        '6' => GopherItem::UuencodeFile,
        '7' => GopherItem::FullTextSearch,
        '8' => GopherItem::Telnet,
        '9' => GopherItem::BinaryFile,
        '+' => GopherItem::Mirror,
        'g' => GopherItem::GifFile,
        'I' => GopherItem::ImageFile,
        'T' => GopherItem::Telnet3270,
        ':' => GopherItem::BitmapFile,
        ';' => GopherItem::MovieFile,
        '<' => GopherItem::SoundFile,
        'd' => GopherItem::DocFile,
        'h' => GopherItem::HtmlFile,
        'i' => GopherItem::Info,
        'p' => GopherItem::PngFile,
        'r' => GopherItem::RtfFile,
        's' => GopherItem::WavFile,
        'P' => GopherItem::PdfFile,
        'X' => GopherItem::XmlFile,
        _ => GopherItem::Unknown,
    }
}

/// The code character of an item type; `Unknown` has `?`, which selects no type.
pub open spec fn code_of(t: GopherItem) -> char {
    match t {
        GopherItem::TextFile => '0',
        GopherItem::Submenu => '1',
        GopherItem::Nameserver => '2',
        GopherItem::Error => '3',
        GopherItem::BinHex => '4',
        GopherItem::Dos => '5',
        GopherItem::UuencodeFile => '6',
        GopherItem::FullTextSearch => '7',
        GopherItem::Telnet => '8',
        GopherItem::BinaryFile => '9',
        GopherItem::Mirror => '+',
        GopherItem::GifFile => 'g',
        GopherItem::ImageFile => 'I',
        GopherItem::Telnet3270 => 'T',
        GopherItem::BitmapFile => ':',
        GopherItem::MovieFile => ';',
        GopherItem::SoundFile => '<',
        GopherItem::DocFile => 'd',
        GopherItem::HtmlFile => 'h',
        GopherItem::Info => 'i',
        GopherItem::PngFile => 'p',
        GopherItem::RtfFile => 'r',
        GopherItem::WavFile => 's',
        GopherItem::PdfFile => 'P',
        GopherItem::XmlFile => 'X',
        GopherItem::Unknown => '?',
    }
}

/// Reading back the code of any item type gives that type again.
pub proof fn lemma_code_round_trip(t: GopherItem)
    ensures
        item_of(code_of(t)) == t,
{
}

/// A character that selects a known type is that type's code.
pub proof fn lemma_char_round_trip(c: char)
    ensures
        item_of(c) != GopherItem::Unknown ==> code_of(item_of(c)) == c,
{
}

impl GopherItem {
    /// The item type that `c` selects.
    pub fn from_char(c: char) -> (r: GopherItem)
        ensures
            r == item_of(c),
    {
        match c {
            '0' => GopherItem::TextFile,
            '1' => GopherItem::Submenu,
            '2' => GopherItem::Nameserver,
            '3' => GopherItem::Error,
            '4' => GopherItem::BinHex,
            '5' => GopherItem::Dos,
            '6' => GopherItem::UuencodeFile,
            '7' => GopherItem::FullTextSearch,
            '8' => GopherItem::Telnet,
            '9' => GopherItem::BinaryFile,
            '+' => GopherItem::Mirror,
            'g' => GopherItem::GifFile,
            'I' => GopherItem::ImageFile,
            'T' => GopherItem::Telnet3270,
            ':' => GopherItem::BitmapFile,
            ';' => GopherItem::MovieFile,
            '<' => GopherItem::SoundFile,
            'd' => GopherItem::DocFile,
            'h' => GopherItem::HtmlFile,
            'i' => GopherItem::Info,
            'p' => GopherItem::PngFile,
            'r' => GopherItem::RtfFile,
            's' => GopherItem::WavFile,
            'P' => GopherItem::PdfFile,
            'X' => GopherItem::XmlFile,
            _ => GopherItem::Unknown,
        }
    }

    /// The code character of this item type.
    pub fn to_char(self) -> (c: char)
        ensures
            c == code_of(self),
    {
        match self {
            GopherItem::TextFile => '0',
            GopherItem::Submenu => '1',
            GopherItem::Nameserver => '2',
            GopherItem::Error => '3',
            GopherItem::BinHex => '4',
            GopherItem::Dos => '5',
            GopherItem::UuencodeFile => '6',
            GopherItem::FullTextSearch => '7',
            GopherItem::Telnet => '8',
            GopherItem::BinaryFile => '9',
            GopherItem::Mirror => '+',
            GopherItem::GifFile => 'g',
            GopherItem::ImageFile => 'I',
            GopherItem::Telnet3270 => 'T',
            GopherItem::BitmapFile => ':',
            GopherItem::MovieFile => ';',
            GopherItem::SoundFile => '<',
            GopherItem::DocFile => 'd',
            GopherItem::HtmlFile => 'h',
            GopherItem::Info => 'i',
            GopherItem::PngFile => 'p',
            GopherItem::RtfFile => 'r',
            GopherItem::WavFile => 's',
            GopherItem::PdfFile => 'P',
            GopherItem::XmlFile => 'X',
            GopherItem::Unknown => '?',
        }
    }
}

impl From<char> for GopherItem {
    fn from(c: char) -> (r: GopherItem) {
        GopherItem::from_char(c)
    }
}

impl vstd::std_specs::convert::FromSpecImpl<char> for GopherItem {
    open spec fn obeys_from_spec() -> bool {
        true
    }

    open spec fn from_spec(c: char) -> GopherItem {
        item_of(c)
    }
}

} // verus!
