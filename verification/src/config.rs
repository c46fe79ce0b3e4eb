//! File-type classification tables and the tool's configuration.
//!
//! The table itself is plain data loaded by the surrounding binary; the
//! verified side owns the classification logic: ASCII case folding of
//! extensions and the video-file test.

use vstd::prelude::*;
use vstd::string::StrSliceExecFns;

use crate::pathtext::{extension_of, spec_extension, spec_file_name};

verus! {

/// ASCII case folding of one character; anything outside `A`..`Z` stays.
pub open spec fn spec_lower_char(c: char) -> char {
    if c == 'A' {
        'a'
    } else if c == 'B' {
        'b'
    } else if c == 'C' {
        'c'
    } else if c == 'D' {
        'd'
    } else if c == 'E' {
        'e'
    } else if c == 'F' {
        'f'
    } else if c == 'G' {
        'g'
    } else if c == 'H' {
        'h'
    } else if c == 'I' {
        'i'
    } else if c == 'J' {
        'j'
    } else if c == 'K' {
        'k'
    } else if c == 'L' {
        'l'
    } else if c == 'M' {
        'm'
    } else if c == 'N' {
        'n'
    } else if c == 'O' {
        'o'
    } else if c == 'P' {
        'p'
    } else if c == 'Q' {
        'q'
    } else if c == 'R' {
        'r'
    } else if c == 'S' {
        's'
    } else if c == 'T' {
        't'
    } else if c == 'U' {
        'u'
    } else if c == 'V' {
        'v'
    } else if c == 'W' {
        'w'
    } else if c == 'X' {
        'x'
    } else if c == 'Y' {
        'y'
    } else if c == 'Z' {
        'z'
    } else {
        c
    }
}

/// ASCII case folding of a text.
pub open spec fn spec_lower(s: Seq<char>) -> Seq<char> {
    s.map_values(|c: char| spec_lower_char(c))
}

/// The one-character string of a folded uppercase letter, if `c` is one.
fn lower_letter_str(c: char) -> (r: Option<&'static str>)
    ensures
        match r {
            Some(t) => t@ =~= seq![spec_lower_char(c)] && spec_lower_char(c) != c,
            None => spec_lower_char(c) == c,
        },
{
    proof {
        reveal_strlit("a");
        reveal_strlit("b");
        reveal_strlit("c");
        reveal_strlit("d");
        reveal_strlit("e");
        reveal_strlit("f");
        reveal_strlit("g");
        reveal_strlit("h");
        reveal_strlit("i");
        reveal_strlit("j");
        reveal_strlit("k");
        reveal_strlit("l");
        reveal_strlit("m");
        reveal_strlit("n");
        reveal_strlit("o");
        reveal_strlit("p");
        reveal_strlit("q");
        reveal_strlit("r");
        reveal_strlit("s");
        reveal_strlit("t");
        reveal_strlit("u");
        reveal_strlit("v");
        reveal_strlit("w");
        reveal_strlit("x");
        reveal_strlit("y");
        reveal_strlit("z");
    }
    match c {
        'A' => Some("a"),
        'B' => Some("b"),
        'C' => Some("c"),
        'D' => Some("d"),
        'E' => Some("e"),
        'F' => Some("f"),
        'G' => Some("g"),
        'H' => Some("h"),
        'I' => Some("i"),
        'J' => Some("j"),
        'K' => Some("k"),
        'L' => Some("l"),
        'M' => Some("m"),
        'N' => Some("n"),
        'O' => Some("o"),
        'P' => Some("p"),
        'Q' => Some("q"),
        'R' => Some("r"),
        'S' => Some("s"),
        'T' => Some("t"),
        'U' => Some("u"),
        'V' => Some("v"),
        'W' => Some("w"),
        'X' => Some("x"),
        'Y' => Some("y"),
        'Z' => Some("z"),
        _ => None,
    }
}

/// ASCII case folding of a string.
pub fn lower_ascii(s: &str) -> (r: String)
    ensures
        r@ == spec_lower(s@),
{
    let n = s.unicode_len();
    let mut r = String::new();
    let mut i: usize = 0;
    proof {
        assert(r@ =~= spec_lower(s@.take(0)));
    }
    while i < n
        invariant
            i <= n,
            n == s@.len(),
            r@ == spec_lower(s@.take(i as int)),
        decreases n - i,
    {
        let c = s.get_char(i);
        match lower_letter_str(c) {
            Some(t) => {
                r.append(t);
            },
            None => {
                let piece = s.substring_char(i, i + 1);
                proof {
                    assert(piece@ =~= seq![s@[i as int]]);
                }
                r.append(piece);
            },
        }
        proof {
            assert(spec_lower(s@.take(i as int)).len() == i);
            assert(spec_lower(s@.take(i as int + 1)).len() == i + 1);
            assert(r@ =~= spec_lower(s@.take(i as int + 1)));
        }
        i += 1;
    }
    proof {
        assert(s@.take(n as int) =~= s@);
    }
    r
}

/// The known file extensions, one list per category.  The lists come
/// from a data file the surrounding binary loads; this side only reads
/// them.
#[derive(Debug, Clone)]
pub struct FileTypeTable {
    pub video_file: Vec<String>,
    pub audio_file: Vec<String>,
    pub image_file: Vec<String>,
    pub archive_file: Vec<String>,
    pub document_file: Vec<String>,
    pub spreadsheet_file: Vec<String>,
    pub presentation_file: Vec<String>,
    pub ebook_file: Vec<String>,
    pub code_file: Vec<String>,
    pub markup_language_file: Vec<String>,
    pub database_file: Vec<String>,
    pub executable_file: Vec<String>,
    pub font_file: Vec<String>,
    pub cad_3d_file: Vec<String>,
    pub system_file: Vec<String>,
}

/// Whether the folded extension text matches one of the folded video
/// entries (each entry is written with its leading dot).
pub open spec fn spec_is_video_ext(table: FileTypeTable, dotted_ext: Seq<char>) -> bool {
    exists|k: int|
        0 <= k < table.video_file@.len() && spec_lower(#[trigger] table.video_file@[k]@)
            == dotted_ext
}

/// Whether a path names a video file: it has an extension, and the
/// extension, folded to lower case and with its dot, stands in the video
/// list (folded the same way).
pub open spec fn spec_is_video_file(table: FileTypeTable, path: Seq<char>) -> bool {
    let name = spec_file_name(path);
    &&& spec_extension(name).len() > 0
    &&& spec_is_video_ext(table, seq!['.'] + spec_lower(spec_extension(name)))
}

impl FileTypeTable {
    /// The video extensions, folded to lower case, in list order.
    pub fn video_extensions_set(&self) -> (r: Vec<String>)
        ensures
            r@.len() == self.video_file@.len(),
            forall|k: int|
                0 <= k < r@.len() ==> (#[trigger] r@[k])@ == spec_lower(self.video_file@[k]@),
    {
        let mut r: Vec<String> = Vec::new();
        let mut i: usize = 0;
        while i < self.video_file.len()
            invariant
                i <= self.video_file@.len(),
                r@.len() == i,
                forall|k: int|
                    0 <= k < i ==> (#[trigger] r@[k])@ == spec_lower(self.video_file@[k]@),
            decreases self.video_file.len() - i,
        {
            r.push(lower_ascii(self.video_file[i].as_str()));
            i += 1;
        }
        r
    }

    /// Whether a path names a video file, by its folded extension.
    pub fn is_video_file(&self, path: &str) -> (r: bool)
        ensures
            r == spec_is_video_file(*self, path@),
    {
        proof {
            reveal_strlit(".");
        }
        let name = crate::pathtext::file_name_of(path);
        let ext = extension_of(name.as_str());
        if ext.as_str().unicode_len() == 0 {
            return false;
        }
        let mut needle = ".".to_owned();
        let folded = lower_ascii(ext.as_str());
        needle.append(folded.as_str());
        proof {
            assert(needle@ =~= seq!['.'] + spec_lower(spec_extension(spec_file_name(path@))));
        }
        let entries = self.video_extensions_set();
        let mut i: usize = 0;
        while i < entries.len()
            invariant
                i <= entries@.len(),
                entries@.len() == self.video_file@.len(),
                forall|k: int|
                    0 <= k < entries@.len() ==> (#[trigger] entries@[k])@ == spec_lower(
                        self.video_file@[k]@,
                    ),
                needle@ == seq!['.'] + spec_lower(spec_extension(spec_file_name(path@))),
                spec_extension(spec_file_name(path@)).len() > 0,
                forall|k: int| 0 <= k < i ==> spec_lower((#[trigger] self.video_file@[k])@) != needle@,
            decreases entries.len() - i,
        {
            if entries[i] == needle {
                proof {
                    assert(spec_lower(self.video_file@[i as int]@) == needle@);
                    assert(spec_is_video_ext(*self, needle@));
                }
                return true;
            }
            i += 1;
        }
        false
    }
}

/// The tool's configuration: today just the file-type table.
#[derive(Debug, Clone)]
pub struct Config {
    pub file_type_table: FileTypeTable,
}

impl Config {
    /// Wraps a loaded file-type table.  Reading and parsing the table's
    /// data file is the surrounding binary's job.
    pub fn new(file_type_table: FileTypeTable) -> (r: Config)
        ensures
            r.file_type_table == file_type_table,
    {
        Config { file_type_table }
    }
}

} // verus!
