//! Print-file support shared by every archive format: the layer record
//! a reader yields, classification of stored files by extension, and
//! the decoding of the operator marks kept in extended attributes.

use vstd::prelude::*;

use crate::api_objects::FileType;
use crate::api_objects::PrintUserMetadata;

verus! {

/// One layer of a sliced print: its mask file name (for logs), the raw
/// PNG bytes, and this layer's exposure time.
#[derive(Clone, Debug)]
pub struct Layer {
    pub file_name: Vec<u8>,
    pub data: Vec<u8>,
    pub exposure_time_ms: u64,
}

/// ASCII lower-casing, as extensions are compared.
pub open spec fn spec_ascii_lower(b: u8) -> u8 {
    if 65 <= b <= 90 {
        (b + 32) as u8
    } else {
        b
    }
}

/// The `sl1` extension, the reference sliced-archive format.
pub open spec fn ext_sl1() -> Seq<u8> {
    seq![115u8, 108, 49]
}

/// The index of the last occurrence of `b`, or -1.
pub open spec fn spec_rfind(s: Seq<u8>, b: u8) -> int
    decreases s.len(),
{
    if s.len() == 0 {
        -1
    } else if s.last() == b {
        s.len() - 1
    } else {
        spec_rfind(s.drop_last(), b)
    }
}

pub proof fn lemma_rfind_bounds(s: Seq<u8>, b: u8)
    ensures
        -1 <= spec_rfind(s, b) < s.len(),
        spec_rfind(s, b) >= 0 ==> s[spec_rfind(s, b)] == b,
        forall|j: int| spec_rfind(s, b) < j < s.len() ==> #[trigger] s[j] != b,
    decreases s.len(),
{
    if s.len() > 0 && s.last() != b {
        lemma_rfind_bounds(s.drop_last(), b);
        assert forall|j: int| spec_rfind(s, b) < j < s.len() implies #[trigger] s[j] != b by {
            if j < s.len() - 1 {
                assert(s.drop_last()[j] == s[j]);
                assert(s.drop_last()[j] != b);
            }
        }
    }
}

/// Last occurrence of `b` in `s`, if any.
pub fn rfind_byte(s: &[u8], b: u8) -> (r: Option<usize>)
    ensures
        match r {
            Some(i) => i == spec_rfind(s@, b),
            None => spec_rfind(s@, b) == -1,
        },
{
    proof {
        lemma_rfind_bounds(s@, b);
    }
    let mut i: usize = s.len();
    while i > 0
        invariant
            0 <= i <= s@.len(),
            forall|j: int| i <= j < s@.len() ==> #[trigger] s@[j] != b,
        decreases i,
    {
        i = i - 1;
        if s[i] == b {
            proof {
                lemma_rfind_bounds(s@, b);
                if spec_rfind(s@, b) < i {
                    assert(s@[i as int] == b);
                }
                if spec_rfind(s@, b) > i {
                    assert(s@[spec_rfind(s@, b)] != b);
                }
            }
            return Some(i);
        }
    }
    proof {
        lemma_rfind_bounds(s@, b);
        if spec_rfind(s@, b) >= 0 {
            assert(s@[spec_rfind(s@, b)] != b);
        }
    }
    None
}

/// The file-name component of a path: everything after the last slash.
pub open spec fn spec_file_name_of(path: Seq<u8>) -> Seq<u8> {
    path.skip(spec_rfind(path, 47) + 1)
}

/// The extension of a file name: the part after its last dot, absent
/// when there is no dot or the only dot starts a hidden file's name.
pub open spec fn spec_extension_of(name: Seq<u8>) -> Option<Seq<u8>> {
    let d = spec_rfind(name, 46);
    if d <= 0 {
        None
    } else {
        Some(name.skip(d + 1))
    }
}

impl FileType {
    /// Classifies by extension: `sl1` in any letter case is the sliced
    /// archive format; anything else is an opaque file.
    pub fn from_extension(extension: Option<&[u8]>) -> (r: FileType)
        ensures
            r == (match extension {
                Some(e) => {
                    if e@.map_values(|b: u8| spec_ascii_lower(b)) == ext_sl1() {
                        FileType::SL1
                    } else {
                        FileType::UnknownFile
                    }
                },
                None => FileType::UnknownFile,
            }),
    {
        match extension {
            Option::Some(e) => {
                if e.len() != 3 {
                    proof {
                        assert(e@.map_values(|b: u8| spec_ascii_lower(b)).len() == e@.len());
                    }
                    return FileType::UnknownFile;
                }
                let b0 = e[0];
                let b1 = e[1];
                let b2 = e[2];
                let l0: u8 = if 65 <= b0 && b0 <= 90 {
                    b0 + 32
                } else {
                    b0
                };
                let l1: u8 = if 65 <= b1 && b1 <= 90 {
                    b1 + 32
                } else {
                    b1
                };
                let l2: u8 = if 65 <= b2 && b2 <= 90 {
                    b2 + 32
                } else {
                    b2
                };
                let is_sl1 = l0 == 115 && l1 == 108 && l2 == 49;
                proof {
                    let lowered = e@.map_values(|b: u8| spec_ascii_lower(b));
                    assert(lowered.len() == 3);
                    assert(lowered[0] == spec_ascii_lower(e@[0]));
                    assert(lowered[1] == spec_ascii_lower(e@[1]));
                    assert(lowered[2] == spec_ascii_lower(e@[2]));
                    if is_sl1 {
                        assert(lowered =~= ext_sl1());
                    } else {
                        assert(lowered != ext_sl1());
                    }
                }
                if is_sl1 {
                    FileType::SL1
                } else {
                    FileType::UnknownFile
                }
            },
            Option::None => FileType::UnknownFile,
        }
    }

    /// Classifies a stored path: a directory stays a directory, a file
    /// goes by the extension of its name.  Whether the path names a
    /// directory only the file system knows; the caller reports it.
    pub fn from_path(path: &[u8], is_dir: bool) -> (r: FileType)
        ensures
            r == (if is_dir {
                FileType::Directory
            } else {
                match spec_extension_of(spec_file_name_of(path@)) {
                    Some(e) => {
                        if e.map_values(|b: u8| spec_ascii_lower(b)) == ext_sl1() {
                            FileType::SL1
                        } else {
                            FileType::UnknownFile
                        }
                    },
                    None => FileType::UnknownFile,
                }
            }),
    {
        if is_dir {
            return FileType::Directory;
        }
        let len = path.len();
        proof {
            lemma_rfind_bounds(path@, 47);
        }
        let start: usize = match rfind_byte(path, 47) {
            Option::Some(i) => i + 1,
            Option::None => 0,
        };
        let mut name: Vec<u8> = Vec::new();
        let mut i: usize = start;
        while i < len
            invariant
                start <= i <= len,
                len == path@.len(),
                name@ =~= path@.subrange(start as int, i as int),
            decreases len - i,
        {
            name.push(path[i]);
            i = i + 1;
        }
        proof {
            assert(name@ =~= spec_file_name_of(path@));
        }
        proof {
            lemma_rfind_bounds(name@, 46);
        }
        match rfind_byte(name.as_slice(), 46) {
            Option::Some(d) => {
                if d == 0 {
                    FileType::UnknownFile
                } else {
                    let nlen = name.len();
                    let mut ext: Vec<u8> = Vec::new();
                    let mut j: usize = d + 1;
                    while j < nlen
                        invariant
                            d + 1 <= j <= nlen,
                            nlen == name@.len(),
                            ext@ =~= name@.subrange(d + 1, j as int),
                        decreases nlen - j,
                    {
                        ext.push(name[j]);
                        j = j + 1;
                    }
                    proof {
                        assert(ext@ =~= name@.skip(d + 1));
                    }
                    FileType::from_extension(Some(ext.as_slice()))
                }
            },
            Option::None => FileType::UnknownFile,
        }
    }
}

/// The big-endian 32-bit value of a four-byte attribute.
pub open spec fn spec_u32_be(v: Seq<u8>) -> int {
    v[0] * 0x1000000 + v[1] * 0x10000 + v[2] * 0x100 + v[3]
}

/// The print count stored beside an archive: a four-byte big-endian
/// attribute; anything else (the attribute missing included) counts as
/// zero.
pub fn print_count_from_xattr(value: Option<Vec<u8>>) -> (r: u32)
    ensures
        r == (match value {
            Some(v) => {
                if v@.len() == 4 {
                    spec_u32_be(v@)
                } else {
                    0
                }
            },
            None => 0,
        }),
{
    match value {
        Option::Some(v) => {
            if v.len() == 4 {
                (v[0] as u32) * 0x1000000 + (v[1] as u32) * 0x10000 + (v[2] as u32) * 0x100 + (
                v[3] as u32)
            } else {
                0
            }
        },
        Option::None => 0,
    }
}

/// The rating stored beside an archive: a single-byte attribute.
pub fn rating_from_xattr(value: Option<Vec<u8>>) -> (r: Option<u8>)
    ensures
        r == (match value {
            Some(v) => {
                if v@.len() == 1 {
                    Some(v[0])
                } else {
                    None::<u8>
                }
            },
            None => None::<u8>,
        }),
{
    match value {
        Option::Some(v) => {
            if v.len() == 1 {
                Some(v[0])
            } else {
                None
            }
        },
        Option::None => None,
    }
}

/// The favourite mark stored beside an archive: a single non-zero byte.
pub fn favorite_from_xattr(value: Option<Vec<u8>>) -> (r: bool)
    ensures
        r == (match value {
            Some(v) => v@.len() == 1 && v[0] != 0,
            None => false,
        }),
{
    match value {
        Option::Some(v) => v.len() == 1 && v[0] != 0,
        Option::None => false,
    }
}

/// Assembles the operator marks from the three raw attribute values.
pub fn user_metadata_from_xattrs(
    print_count: Option<Vec<u8>>,
    favorite: Option<Vec<u8>>,
    rating: Option<Vec<u8>>,
) -> (r: PrintUserMetadata)
    ensures
        r.print_count == (match print_count {
            Some(v) => {
                if v@.len() == 4 {
                    spec_u32_be(v@)
                } else {
                    0
                }
            },
            None => 0,
        }),
        r.favorite == (match favorite {
            Some(v) => v@.len() == 1 && v[0] != 0,
            None => false,
        }),
        r.rating == (match rating {
            Some(v) => {
                if v@.len() == 1 {
                    Some(v[0])
                } else {
                    None::<u8>
                }
            },
            None => None::<u8>,
        }),
{
    PrintUserMetadata {
        print_count: print_count_from_xattr(print_count),
        favorite: favorite_from_xattr(favorite),
        rating: rating_from_xattr(rating),
    }
}

} // verus!
