//! The audio types the dump accepts, and the file extension each MIME type
//! maps to. An unrecognized MIME type is a fatal input error: the partial
//! functions demand a known type, and `get_type_from_mime_checked` reports
//! the unknown case instead.

use vstd::prelude::*;

use crate::text::str_eq;

verus! {

/// The accepted enclosure audio types.
#[derive(Debug, Clone, Copy, PartialEq, Eq)]
pub enum AudioType {
    Mpeg,
    Aac,
    Mp4,
    Ogg,
    M4a,
}

/// The audio type a MIME type names, if it is one of the accepted five.
pub open spec fn mime_type_of(s: Seq<char>) -> Option<AudioType> {
    if s == "audio/mpeg"@ {
        Some(AudioType::Mpeg)
    } else if s == "audio/aac"@ {
        Some(AudioType::Aac)
    } else if s == "audio/ogg"@ {
        Some(AudioType::Ogg)
    } else if s == "audio/mp4"@ {
        Some(AudioType::Mp4)
    } else if s == "audio/x-m4a"@ {
        Some(AudioType::M4a)
    } else {
        None
    }
}

/// Whether the MIME type is one of the accepted five.
pub open spec fn is_known_mime(s: Seq<char>) -> bool {
    mime_type_of(s) is Some
}

/// The file extension of an audio type.
pub open spec fn extension_chars(ty: AudioType) -> Seq<char> {
    match ty {
        AudioType::Mpeg => "mp3"@,
        AudioType::Aac => "aac"@,
        AudioType::Ogg => "ogg"@,
        AudioType::Mp4 => "mp4"@,
        AudioType::M4a => "m4a"@,
    }
}

/// The file extension a known MIME type maps to.
pub open spec fn extension_of_mime(s: Seq<char>) -> Seq<char>
    recommends
        is_known_mime(s),
{
    extension_chars(mime_type_of(s)->0)
}

impl AudioType {
    /// The audio type a MIME type names, or `None` for an unrecognized one.
    pub fn get_type_from_mime_checked(mime_type: &str) -> (r: Option<AudioType>)
        ensures
            r == mime_type_of(mime_type@),
    {
        if str_eq(mime_type, "audio/mpeg") {
            Some(AudioType::Mpeg)
        } else if str_eq(mime_type, "audio/aac") {
            Some(AudioType::Aac)
        } else if str_eq(mime_type, "audio/ogg") {
            Some(AudioType::Ogg)
        } else if str_eq(mime_type, "audio/mp4") {
            Some(AudioType::Mp4)
        } else if str_eq(mime_type, "audio/x-m4a") {
            Some(AudioType::M4a)
        } else {
            None
        }
    }

    /// The audio type of a MIME type known to be accepted.
    pub fn get_type_from_mime(mime_type: &str) -> (r: AudioType)
        requires
            is_known_mime(mime_type@),
        ensures
            Some(r) == mime_type_of(mime_type@),
    {
        match Self::get_type_from_mime_checked(mime_type) {
            Some(t) => t,
            None => {
                proof {
                    assert(false);
                }
                AudioType::Mpeg
            },
        }
    }

    /// The file extension of an audio type.
    pub fn get_extension_from_type(ty: AudioType) -> (r: &'static str)
        ensures
            r@ == extension_chars(ty),
    {
        match ty {
            AudioType::Mpeg => "mp3",
            AudioType::Aac => "aac",
            AudioType::Ogg => "ogg",
            AudioType::Mp4 => "mp4",
            AudioType::M4a => "m4a",
        }
    }

    /// The file extension of a known MIME type.
    pub fn get_extension_from_mime(mime_type: &str) -> (r: &'static str)
        requires
            is_known_mime(mime_type@),
        ensures
            r@ == extension_of_mime(mime_type@),
    {
        let ty = Self::get_type_from_mime(mime_type);
        Self::get_extension_from_type(ty)
    }
}

} // verus!
