//! Names of the output: the subdirectory of a source file and the file
//! names of its tiles.

use crate::decimal::{decimal, decimal_digits, is_digit, lemma_decimal_injective, lemma_decimal_shape};
use crate::text::{lemma_first_place, lemma_last_place, lemma_no_place};
use vstd::prelude::*;
use vstd::string::{StrSliceExecFns, StringExecFns};

verus! {

/// The stem of a file name: what stands before its first dot. A name
/// without a dot has no stem.
pub open spec fn stem_of(name: Seq<char>) -> Option<Seq<char>> {
    match name.index_of_first('.') {
        Some(dot) => Some(name.subrange(0, dot)),
        None => None,
    }
}

/// The extension of a file name: what stands after its last dot. There is
/// none where the name has no dot, where its only dot is its first
/// character, and for the name `..`.
pub open spec fn extension_of(name: Seq<char>) -> Option<Seq<char>> {
    match name.index_of_last('.') {
        Some(dot) => if dot == 0 || name == seq!['.', '.'] {
            None
        } else {
            Some(name.subrange(dot + 1, name.len() as int))
        },
        None => None,
    }
}

/// The file name of tile `(column, row)`, both counted from zero: the two
/// numbers counted from one, a comma between them, then a dot and the
/// extension.
pub open spec fn tile_name(column: nat, row: nat, extension: Seq<char>) -> Seq<char> {
    decimal_digits(column + 1) + seq![','] + decimal_digits(row + 1) + seq!['.'] + extension
}

/// Naming stem rule: a file name with a stem is the stem, a dot, and what
/// follows; there is no dot in the stem.
pub proof fn lemma_stem_before_first_dot(name: Seq<char>)
    ensures
        stem_of(name) is Some <==> name.contains('.'),
        stem_of(name) matches Some(stem) ==> {
            &&& !stem.contains('.')
            &&& stem.len() < name.len()
            &&& name == stem + seq!['.'] + name.subrange(stem.len() as int + 1, name.len() as int)
        },
{
    name.index_of_first_ensures('.');
    if let Some(stem) = stem_of(name) {
        let dot: int = name.index_of_first('.').unwrap();
        assert(stem.len() == dot);
        assert forall|j: int| 0 <= j < stem.len() implies stem[j] != '.' by {
            assert(stem[j] == name[j]);
        }
        assert(name =~= stem + seq!['.'] + name.subrange(stem.len() as int + 1, name.len() as int));
    }
}

/// A file name with an extension is what stands before its last dot, which
/// is not empty, the dot, and the extension; there is no dot in the
/// extension.
pub proof fn lemma_extension_after_last_dot(name: Seq<char>)
    ensures
        extension_of(name) matches Some(extension) ==> {
            &&& !extension.contains('.')
            &&& extension.len() + 1 < name.len()
            &&& name == name.subrange(0, name.len() - extension.len() - 1) + seq!['.'] + extension
        },
{
    name.index_of_last_ensures('.');
    if let Some(extension) = extension_of(name) {
        let dot: int = name.index_of_last('.').unwrap();
        assert(extension.len() == name.len() - dot - 1);
        assert forall|j: int| 0 <= j < extension.len() implies extension[j] != '.' by {
            assert(extension[j] == name[dot + 1 + j]);
        }
        assert(name =~= name.subrange(0, name.len() - extension.len() - 1) + seq!['.'] + extension);
    }
}

/// The stem of `file_name`: what stands before its first dot.
pub fn stem(file_name: &str) -> (found: Option<String>)
    ensures
        found is Some <==> stem_of(file_name@) is Some,
        found matches Some(text) ==> stem_of(file_name@) == Some(text@),
{
    let length: usize = file_name.unicode_len();
    let mut place: usize = 0;
    while place < length
        invariant
            length == file_name@.len(),
            place <= length,
            forall|j: int| 0 <= j < place ==> file_name@[j] != '.',
        decreases length - place,
    {
        if file_name.get_char(place) == '.' {
            proof {
                lemma_first_place(file_name@, '.', place as int);
            }
            return Some(String::from_str(file_name.substring_char(0, place)));
        }
        place = place + 1;
    }
    proof {
        lemma_no_place(file_name@, '.');
    }
    None
}

/// The extension of `file_name`: what stands after its last dot.
pub fn extension(file_name: &str) -> (found: Option<String>)
    ensures
        found is Some <==> extension_of(file_name@) is Some,
        found matches Some(text) ==> extension_of(file_name@) == Some(text@),
{
    let length: usize = file_name.unicode_len();
    let mut place: usize = length;
    while place > 0
        invariant
            length == file_name@.len(),
            place <= length,
            forall|j: int| place <= j < length ==> file_name@[j] != '.',
        decreases place,
    {
        place = place - 1;
        if file_name.get_char(place) == '.' {
            proof {
                lemma_last_place(file_name@, '.', place as int);
            }
            if place == 0 || (length == 2 && file_name.get_char(0) == '.') {
                assert(length == 2 && file_name@[0] == '.' && place != 0 ==> file_name@ =~= seq![
                    '.',
                    '.',
                ]);
                return None;
            }
            assert(file_name@ != seq!['.', '.']) by {
                if file_name@ == seq!['.', '.'] {
                    assert(seq!['.', '.'].len() == 2);
                    assert(seq!['.', '.'][0] == '.');
                }
            }
            return Some(String::from_str(file_name.substring_char(place + 1, length)));
        }
    }
    proof {
        lemma_no_place(file_name@, '.');
    }
    None
}

/// The file name of tile `(column, row)`, both counted from zero.
pub fn tile_file_name(column: u32, row: u32, extension: &str) -> (name: String)
    ensures
        name@ == tile_name(column as nat, row as nat, extension@),
{
    proof {
        reveal_strlit(",");
        reveal_strlit(".");
    }
    let mut name = decimal(column as u64 + 1);
    name.append(",");
    let row_text = decimal(row as u64 + 1);
    name.append(row_text.as_str());
    name.append(".");
    name.append(extension);
    assert(name@ =~= tile_name(column as nat, row as nat, extension@));
    name
}

/// What can go wrong when the names of the output are derived from the
/// name of the source file.
#[derive(Clone, Copy, Debug, PartialEq, Eq, Structural)]
pub enum NameError {
    /// The file name has no dot, so it has no stem.
    MissingStem,
    /// The file name has a stem and no extension.
    MissingExtension,
}

/// Where the tiles of one source file go: the output folder, the
/// subdirectory of the source in it, and the extension of the tile files.
#[derive(Clone, Debug, PartialEq, Eq)]
pub struct OutputLayout {
    pub root: String,
    pub stem: String,
    pub extension: String,
}

/// The output folder that is used where none is given.
pub fn default_output_folder() -> (folder: &'static str)
    ensures
        folder@ == "output/"@,
{
    "output/"
}

/// The output folder as a value: the one given, or else the default.
pub open spec fn root_of(output_folder: Option<Seq<char>>) -> Seq<char> {
    match output_folder {
        Some(folder) => folder,
        None => "output/"@,
    }
}

impl OutputLayout {
    /// Derives the layout of the output from the file name of the source
    /// (the last component of its path) and the output folder, if one is
    /// given.
    pub fn derive(file_name: &str, output_folder: Option<&str>) -> (made: Result<
        OutputLayout,
        NameError,
    >)
        ensures
            match made {
                Ok(layout) => {
                    &&& stem_of(file_name@) == Some(layout.stem@)
                    &&& extension_of(file_name@) == Some(layout.extension@)
                    &&& layout.root@ == root_of(
                        match output_folder {
                            Some(folder) => Some(folder@),
                            None => None,
                        },
                    )
                },
                Err(NameError::MissingStem) => stem_of(file_name@) is None,
                Err(NameError::MissingExtension) => {
                    &&& stem_of(file_name@) is Some
                    &&& extension_of(file_name@) is None
                },
            },
    {
        let stem = match stem(file_name) {
            Some(text) => text,
            None => { return Err(NameError::MissingStem); },
        };
        let extension = match extension(file_name) {
            Some(text) => text,
            None => { return Err(NameError::MissingExtension); },
        };
        let root = match output_folder {
            Some(folder) => String::from_str(folder),
            None => String::from_str(default_output_folder()),
        };
        Ok(OutputLayout { root, stem, extension })
    }

    /// The file name of tile `(column, row)`, both counted from zero.
    pub fn tile_file_name(&self, column: u32, row: u32) -> (name: String)
        ensures
            name@ == tile_name(column as nat, row as nat, self.extension@),
    {
        tile_file_name(column, row, self.extension.as_str())
    }
}

/// No digit is a comma.
proof fn lemma_digit_is_no_comma(c: char)
    requires
        is_digit(c),
    ensures
        c != ',',
{
}

/// Tiles at different grid coordinates have different file names.
pub proof fn lemma_tile_names_differ(
    column_a: nat,
    row_a: nat,
    column_b: nat,
    row_b: nat,
    extension: Seq<char>,
)
    requires
        tile_name(column_a, row_a, extension) == tile_name(column_b, row_b, extension),
    ensures
        column_a == column_b,
        row_a == row_b,
{
    let name_a = tile_name(column_a, row_a, extension);
    let name_b = tile_name(column_b, row_b, extension);
    let first_a = decimal_digits(column_a + 1);
    let first_b = decimal_digits(column_b + 1);
    let second_a = decimal_digits(row_a + 1);
    let second_b = decimal_digits(row_b + 1);
    lemma_decimal_shape(column_a + 1);
    lemma_decimal_shape(column_b + 1);
    assert(name_a[first_a.len() as int] == ',');
    assert(name_b[first_b.len() as int] == ',');
    if first_a.len() < first_b.len() {
        assert(name_b[first_a.len() as int] == first_b[first_a.len() as int]);
        lemma_digit_is_no_comma(first_b[first_a.len() as int]);
    }
    if first_b.len() < first_a.len() {
        assert(name_a[first_b.len() as int] == first_a[first_b.len() as int]);
        lemma_digit_is_no_comma(first_a[first_b.len() as int]);
    }
    assert(first_a =~= first_b) by {
        assert forall|k: int| 0 <= k < first_a.len() implies first_a[k] == first_b[k] by {
            assert(name_a[k] == first_a[k]);
            assert(name_b[k] == first_b[k]);
        }
    }
    lemma_decimal_injective(column_a + 1, column_b + 1);
    let offset: int = first_a.len() as int + 1;
    assert(name_a.len() == offset + second_a.len() + 1 + extension.len());
    assert(name_b.len() == offset + second_b.len() + 1 + extension.len());
    assert(second_a =~= second_b) by {
        assert forall|k: int| 0 <= k < second_a.len() implies second_a[k] == second_b[k] by {
            assert(name_a[offset + k] == second_a[k]);
            assert(name_b[offset + k] == second_b[k]);
        }
    }
    lemma_decimal_injective(row_a + 1, row_b + 1);
}

} // verus!
