//! Listing of stored print files: building a file description from what
//! the file system reports, paging a directory listing, and splitting a
//! page into directories, print archives and plain files.  The walks of
//! the file system themselves belong to the embedding binary.

use vstd::prelude::*;

use crate::api_objects::FileMetadata;
use crate::api_objects::FileType;
use crate::api_objects::PrintMetadata;
use crate::api_objects::PrintUploadDirectory;
use crate::error::ErrorType;
use crate::error::OdysseyError;
use crate::printfile::spec_file_name_of;
use crate::printfile::spec_extension_of;
use crate::printfile::spec_ascii_lower;
use crate::printfile::lemma_rfind_bounds;
use crate::printfile::rfind_byte;
use crate::printfile::ext_sl1;
use crate::text::clone_bytes;
use crate::text::copy_range;

verus! {

/// One page of a directory listing: print archives with their metadata,
/// plain files, sub-directories, and the next page's index if one
/// exists.
#[derive(Clone, Debug)]
pub struct FilesResponse {
    pub print_files: Vec<PrintMetadata>,
    pub files: Vec<FileMetadata>,
    pub dirs: Vec<FileMetadata>,
    pub next_index: Option<usize>,
}

/// Joining a directory and a relative path, the way paths nest: an
/// absolute right side wins, an empty left side disappears, and exactly
/// one separator stands between the parts.
pub open spec fn spec_join(dir: Seq<u8>, rel: Seq<u8>) -> Seq<u8> {
    if rel.len() > 0 && rel[0] == 47 {
        rel
    } else if dir.len() == 0 {
        rel
    } else if dir.last() == 47 {
        dir + rel
    } else {
        dir + seq![47u8] + rel
    }
}

/// Joins a directory path and a relative path.
pub fn join_paths(dir: &[u8], rel: &[u8]) -> (r: Vec<u8>)
    ensures
        r@ == spec_join(dir@, rel@),
{
    if rel.len() > 0 && rel[0] == 47 {
        let r = copy_range(rel, 0, rel.len());
        proof {
            assert(r@ =~= rel@);
        }
        return r;
    }
    if dir.len() == 0 {
        let r = copy_range(rel, 0, rel.len());
        proof {
            assert(r@ =~= rel@);
        }
        return r;
    }
    let mut r = copy_range(dir, 0, dir.len());
    proof {
        assert(r@ =~= dir@);
    }
    if dir[dir.len() - 1] != 47 {
        r.push(47);
    }
    let mut i: usize = 0;
    let n = rel.len();
    let ghost base = r@;
    while i < n
        invariant
            0 <= i <= n,
            n == rel@.len(),
            r@ =~= base + rel@.subrange(0, i as int),
        decreases n - i,
    {
        r.push(rel[i]);
        i = i + 1;
    }
    proof {
        assert(r@ =~= spec_join(dir@, rel@));
    }
    r
}

impl FileMetadata {
    /// Builds the description of a stored file.  The embedding binary
    /// reports what only the file system knows (whether the path is a
    /// directory, its size and modification time); the name and the
    /// classification are derived here.  A path without a file-name
    /// component is refused as not found.
    pub fn from_path(
        file_path: Vec<u8>,
        upload_directory: &PrintUploadDirectory,
        is_dir: bool,
        file_size: u64,
        last_modified: Option<u64>,
    ) -> (r: Result<FileMetadata, OdysseyError>)
        ensures
            match r {
                Ok(m) => spec_file_name_of(spec_join(upload_directory.path@, file_path@)).len()
                    > 0 && spec_described_file(
                    m,
                    *upload_directory,
                    file_path@,
                    is_dir,
                    file_size,
                    last_modified,
                ),
                Err(e) => {
                    &&& spec_file_name_of(
                        spec_join(upload_directory.path@, file_path@),
                    ).len() == 0
                    &&& e.error_type == ErrorType::FileError
                    &&& e.error_code == 404
                },
            },
    {
        let full = join_paths(upload_directory.path.as_slice(), file_path.as_slice());
        let flen = full.len();
        proof {
            lemma_rfind_bounds(full@, 47);
        }
        let start: usize = match rfind_byte(full.as_slice(), 47) {
            Option::Some(i) => i + 1,
            Option::None => 0,
        };
        if start >= flen {
            return Err(OdysseyError::file_error(full, 404));
        }
        let name = copy_range(full.as_slice(), start, flen);
        proof {
            assert(name@ =~= spec_file_name_of(full@));
        }
        let file_type = FileType::from_path(full.as_slice(), is_dir);
        Ok(
            FileMetadata {
                path: file_path,
                name,
                last_modified,
                file_size,
                file_type,
                upload_directory: PrintUploadDirectory {
                    label: clone_bytes(&upload_directory.label),
                    path: clone_bytes(&upload_directory.path),
                },
            },
        )
    }

    /// The stored file's full path: its upload directory joined with
    /// its relative path.
    pub fn get_full_path(&self) -> (r: Vec<u8>)
        ensures
            r@ == spec_join(self.upload_directory.path@, self.path@),
    {
        join_paths(self.upload_directory.path.as_slice(), self.path.as_slice())
    }
}

/// The fields a file description built below `dir` carries for the
/// relative path `rel`, given what the file system reported.
pub open spec fn spec_described_file(
    m: FileMetadata,
    dir: PrintUploadDirectory,
    rel: Seq<u8>,
    is_dir: bool,
    file_size: u64,
    last_modified: Option<u64>,
) -> bool {
    &&& m.path@ == rel
    &&& m.name@ == spec_file_name_of(spec_join(dir.path@, rel))
    &&& m.last_modified == last_modified
    &&& m.file_size == file_size
    &&& m.file_type == (if is_dir {
        FileType::Directory
    } else {
        match spec_extension_of(spec_file_name_of(spec_join(dir.path@, rel))) {
            Some(e) => {
                if e.map_values(|b: u8| spec_ascii_lower(b)) == ext_sl1() {
                    FileType::SL1
                } else {
                    FileType::UnknownFile
                }
            },
            None => FileType::UnknownFile,
        }
    })
    &&& m.upload_directory.label@ == dir.label@
    &&& m.upload_directory.path@ == dir.path@
}

impl PrintUploadDirectory {
    /// The description of `filename` inside an optional sub-directory
    /// of this upload directory.  Exact, like `get_file_from_pathbuf`
    /// on the joined relative path.
    pub fn get_file_from_subdir(
        &self,
        filename: &[u8],
        subdirectory: Option<Vec<u8>>,
        is_dir: bool,
        file_size: u64,
        last_modified: Option<u64>,
    ) -> (r: Result<FileMetadata, OdysseyError>)
        ensures
            ({
                let rel = match subdirectory {
                    Some(sub) => spec_join(sub@, filename@),
                    None => spec_join(Seq::empty(), filename@),
                };
                match r {
                    Ok(m) => spec_file_name_of(spec_join(self.path@, rel)).len() > 0
                        && spec_described_file(m, *self, rel, is_dir, file_size, last_modified),
                    Err(e) => {
                        &&& spec_file_name_of(spec_join(self.path@, rel)).len() == 0
                        &&& e.error_type == ErrorType::FileError
                        &&& e.error_code == 404
                    },
                }
            }),
    {
        let rel = match subdirectory {
            Option::Some(sub) => join_paths(sub.as_slice(), filename),
            Option::None => {
                let empty: Vec<u8> = Vec::new();
                let r = join_paths(empty.as_slice(), filename);
                proof {
                    assert(empty@ =~= Seq::<u8>::empty());
                }
                r
            },
        };
        self.get_file_from_pathbuf(rel, is_dir, file_size, last_modified)
    }

    /// The description of the file at `file_path` below this upload
    /// directory: exactly the classification and naming logic of
    /// `FileMetadata::from_path`, refusing exactly the paths without a
    /// file-name component.
    pub fn get_file_from_pathbuf(
        &self,
        file_path: Vec<u8>,
        is_dir: bool,
        file_size: u64,
        last_modified: Option<u64>,
    ) -> (r: Result<FileMetadata, OdysseyError>)
        ensures
            match r {
                Ok(m) => spec_file_name_of(spec_join(self.path@, file_path@)).len() > 0
                    && spec_described_file(m, *self, file_path@, is_dir, file_size, last_modified),
                Err(e) => {
                    &&& spec_file_name_of(spec_join(self.path@, file_path@)).len() == 0
                    &&& e.error_type == ErrorType::FileError
                    &&& e.error_code == 404
                },
            },
    {
        FileMetadata::from_path(file_path, self, is_dir, file_size, last_modified)
    }
}

/// Which entries of a page land in the directory list.
pub open spec fn spec_is_dir_entry(m: FileMetadata) -> bool {
    m.file_type is Directory
}

/// Which entries of a page are print archives.
pub open spec fn spec_is_print_entry(m: FileMetadata) -> bool {
    m.file_type is SL1
}

/// Which entries of a page are plain files.
pub open spec fn spec_is_plain_entry(m: FileMetadata) -> bool {
    !(m.file_type is Directory) && !(m.file_type is SL1)
}

/// Splits one listing page into sub-directories, print archives and
/// plain files, keeping the listing order of each class.  The embedding
/// binary then opens each print archive for its metadata.
pub fn classify_entries(entries: Vec<FileMetadata>) -> (r: (
    Vec<FileMetadata>,
    Vec<FileMetadata>,
    Vec<FileMetadata>,
))
    ensures
        r.0@ == entries@.filter(|m: FileMetadata| spec_is_dir_entry(m)),
        r.1@ == entries@.filter(|m: FileMetadata| spec_is_print_entry(m)),
        r.2@ == entries@.filter(|m: FileMetadata| spec_is_plain_entry(m)),
{
    let ghost all = entries@;
    let mut rest = entries;
    let mut dirs: Vec<FileMetadata> = Vec::new();
    let mut prints: Vec<FileMetadata> = Vec::new();
    let mut plain: Vec<FileMetadata> = Vec::new();
    let mut i: usize = 0;
    let n = rest.len();
    proof {
        reveal(Seq::filter);
        assert(all.take(0) =~= Seq::<FileMetadata>::empty());
        assert(dirs@ =~= all.take(0).filter(|m: FileMetadata| spec_is_dir_entry(m)));
        assert(prints@ =~= all.take(0).filter(|m: FileMetadata| spec_is_print_entry(m)));
        assert(plain@ =~= all.take(0).filter(|m: FileMetadata| spec_is_plain_entry(m)));
    }
    while i < n
        invariant
            0 <= i <= n,
            n == all.len(),
            rest@.len() == n - i,
            forall|j: int| 0 <= j < rest@.len() ==> #[trigger] rest@[j] == all[j + i],
            dirs@ == all.take(i as int).filter(|m: FileMetadata| spec_is_dir_entry(m)),
            prints@ == all.take(i as int).filter(|m: FileMetadata| spec_is_print_entry(m)),
            plain@ == all.take(i as int).filter(|m: FileMetadata| spec_is_plain_entry(m)),
        decreases n - i,
    {
        let e = rest.remove(0);
        proof {
            assert(e == all[i as int]);
            assert(all.take(i + 1).drop_last() =~= all.take(i as int));
            assert(all.take(i + 1).last() == all[i as int]);
            reveal(Seq::filter);
        }
        match e.file_type {
            FileType::Directory => {
                dirs.push(e);
            },
            FileType::SL1 => {
                prints.push(e);
            },
            FileType::UnknownFile => {
                plain.push(e);
            },
        }
        i = i + 1;
    }
    proof {
        assert(all.take(n as int) =~= all);
    }
    (dirs, prints, plain)
}

/// The slice of a listing one page shows, by the paging rule: page `p`
/// of size `s` covers entries `p*s` up to `(p+1)*s`, and a next page is
/// announced exactly when entries remain beyond it.  The page index
/// defaults to 0 and the size to 100.
pub open spec fn spec_page(total: int, page_index: Option<usize>, page_size: Option<usize>) -> (
    int,
    int,
    Option<usize>,
) {
    let p = if page_index is Some {
        page_index->0 as int
    } else {
        0
    };
    let s = if page_size is Some {
        page_size->0 as int
    } else {
        100
    };
    let start = if p * s <= total {
        p * s
    } else {
        total
    };
    let end = if (p + 1) * s <= total {
        (p + 1) * s
    } else {
        total
    };
    let next = if (p + 1) * s < total {
        Some((p + 1) as usize)
    } else {
        None
    };
    (start, end, next)
}

/// Computes the page bounds and the next page index for a listing of
/// `total` entries.  A zero page size shows nothing page after page.
pub fn paginate(total: usize, page_index: Option<usize>, page_size: Option<usize>) -> (r: (
    usize,
    usize,
    Option<usize>,
))
    requires
        (match page_index {
            Some(p) => p < usize::MAX,
            None => true,
        }),
    ensures
        (r.0 as int, r.1 as int, r.2) == spec_page(total as int, page_index, page_size),
{
    let p: u128 = match page_index {
        Option::Some(v) => v as u128,
        Option::None => 0,
    };
    let s: u128 = match page_size {
        Option::Some(v) => v as u128,
        Option::None => 100,
    };
    let t: u128 = total as u128;
    proof {
        assert(p * s <= u128::MAX && (p + 1) * s <= u128::MAX) by (nonlinear_arith)
            requires
                p <= u64::MAX,
                s <= u64::MAX,
        ;
    }
    let start128: u128 = p * s;
    let end128: u128 = (p + 1) * s;
    let start: usize = if start128 <= t {
        start128 as usize
    } else {
        total
    };
    let end: usize = if end128 <= t {
        end128 as usize
    } else {
        total
    };
    let next: Option<usize> = if end128 < t {
        Some((p as usize) + 1)
    } else {
        None
    };
    (start, end, next)
}

} // verus!
