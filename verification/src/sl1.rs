//! The `.sl1` sliced-archive reader: a ZIP container holding an INI
//! print configuration, one PNG mask per layer (lexicographic name
//! order is layer order), and two thumbnails.  The ZIP container is
//! read through the `zip` crate over an in-memory buffer; everything
//! decided about its contents is verified here.

use vstd::prelude::*;

use crate::api_objects::FileData;
use crate::api_objects::FileMetadata;
use crate::api_objects::PrintMetadata;
use crate::api_objects::PrintUserMetadata;
use crate::api_objects::ThumbnailSize;
use crate::error::ErrorType;
use crate::error::OdysseyError;
use crate::printfile::Layer;
use crate::text::bytes_eq;
use crate::text::copy_range;
use crate::text::clone_bytes;
use crate::text::find_byte;
use crate::text::has_name;
use crate::text::lex_le;
use crate::text::parse_milli;
use crate::text::parse_u64;
use crate::text::sort_names;
use crate::text::spec_find;
use crate::text::spec_parse_milli;
use crate::text::spec_parse_u64;
use crate::text::spec_split_lines;
use crate::text::spec_trim;
use crate::text::split_lines;
use crate::text::trim_bytes;

verus! {

/// The archive container type of the `zip` crate, over an in-memory
/// buffer so that reading it is a pure computation on the bytes.
#[verifier::external_type_specification]
#[verifier::external_body]
#[verifier::reject_recursive_types(R)]
pub struct ExZipArchive<R>(zip::ZipArchive<R>);

#[verifier::external_type_specification]
#[verifier::external_body]
#[verifier::reject_recursive_types(T)]
pub struct ExCursor<T>(std::io::Cursor<T>);

/// What an opened archive holds: each entry's raw name bytes (the key
/// of the container's entry table) mapped to the bytes decompressing
/// that entry yields.  The value at a name that is not readable (see
/// `entry_readable`) is unconstrained.
pub uninterp spec fn zip_entries(a: zip::ZipArchive<std::io::Cursor<Vec<u8>>>) -> Map<
    Seq<u8>,
    Seq<u8>,
>;

/// What parsing bytes as a ZIP container yields: the entry table when
/// the central directory is well-formed, nothing otherwise.  Parsing is
/// a function of the bytes alone.
pub uninterp spec fn zip_parse(data: Seq<u8>) -> Option<Map<Seq<u8>, Seq<u8>>>;

/// Whether the entry of the given raw name can be fetched and decoded
/// whole through the container's by-name path: the name is UTF-8, its
/// content can be located, and it decompresses without error.  A
/// function of the archive's bytes and the name; reading other entries
/// does not change it.
pub uninterp spec fn entry_readable(
    a: zip::ZipArchive<std::io::Cursor<Vec<u8>>>,
    name: Seq<u8>,
) -> bool;

/// Whether every entry's content can at least be located, which is what
/// listing the raw names takes.  A function of the archive's bytes.
pub uninterp spec fn names_listable(a: zip::ZipArchive<std::io::Cursor<Vec<u8>>>) -> bool;

/// `entry_readable`, as a function of the container bytes an archive was
/// opened from; `zip_open` ties the two together.
pub uninterp spec fn zip_entry_readable(data: Seq<u8>, name: Seq<u8>) -> bool;

/// `names_listable`, as a function of the container bytes an archive was
/// opened from; `zip_open` ties the two together.
pub uninterp spec fn zip_listable(data: Seq<u8>) -> bool;

/// Relies on `zip::ZipArchive::new` over an in-memory cursor: it parses
/// the archive's central directory, deterministically in the bytes, and
/// refuses a malformed archive.
#[verifier::external_body]
fn zip_open(data: Vec<u8>) -> (r: Result<zip::ZipArchive<std::io::Cursor<Vec<u8>>>, ()>)
    ensures
        r is Ok <==> zip_parse(data@) is Some,
        r is Ok ==> Some(zip_entries(r->Ok_0)) == zip_parse(data@),
        r is Ok ==> names_listable(r->Ok_0) == zip_listable(data@),
        r is Ok ==> forall|n: Seq<u8>| #[trigger]
            entry_readable(r->Ok_0, n) == zip_entry_readable(data@, n),
{
    match zip::ZipArchive::new(std::io::Cursor::new(data)) {
        Ok(archive) => Ok(archive),
        Err(_) => Err(()),
    }
}

/// Relies on `zip::ZipArchive::by_index_raw` and `ZipFile::name_raw`:
/// the raw name bytes of every entry, each exactly once (the entry
/// table is keyed by exactly these bytes).  An entry whose content
/// cannot be located fails the listing; locating content moves the
/// cursor only, so nothing about the entries changes.
#[verifier::external_body]
fn zip_file_names(archive: &mut zip::ZipArchive<std::io::Cursor<Vec<u8>>>) -> (r: Result<
    Vec<Vec<u8>>,
    (),
>)
    ensures
        zip_entries(*final(archive)) == zip_entries(*old(archive)),
        names_listable(*final(archive)) == names_listable(*old(archive)),
        forall|n: Seq<u8>| #[trigger]
            entry_readable(*final(archive), n) == entry_readable(*old(archive), n),
        r is Ok <==> names_listable(*old(archive)),
        r is Ok ==> {
            let names = r->Ok_0;
            &&& forall|i: int|
                0 <= i < names@.len() ==> zip_entries(*old(archive)).dom().contains(
                    (#[trigger] names@[i])@,
                )
            &&& forall|n: Seq<u8>|
                zip_entries(*old(archive)).dom().contains(n) ==> exists|i: int|
                    0 <= i < names@.len() && (#[trigger] names@[i])@ == n
            &&& forall|i: int, j: int|
                0 <= i < j < names@.len() ==> (#[trigger] names@[i])@ != (#[trigger] names@[j])@
        },
{
    let mut names: Vec<Vec<u8>> = Vec::new();
    for i in 0..archive.len() {
        let entry = archive.by_index_raw(i).map_err(|_| ())?;
        names.push(entry.name_raw().to_vec());
    }
    Ok(names)
}

/// Relies on `zip::ZipArchive::by_name` and `std::io::Read::read_to_end`:
/// a readable entry (looked up by its raw name bytes) is decompressed
/// whole; a missing or unreadable one is refused.  Reading moves the
/// cursor only, so nothing about the entries changes.
#[verifier::external_body]
fn zip_read_entry(archive: &mut zip::ZipArchive<std::io::Cursor<Vec<u8>>>, name: &[u8]) -> (r:
    Result<Vec<u8>, ()>)
    ensures
        zip_entries(*final(archive)) == zip_entries(*old(archive)),
        names_listable(*final(archive)) == names_listable(*old(archive)),
        forall|n: Seq<u8>| #[trigger]
            entry_readable(*final(archive), n) == entry_readable(*old(archive), n),
        r is Ok <==> zip_entries(*old(archive)).dom().contains(name@) && entry_readable(
            *old(archive),
            name@,
        ),
        r is Ok ==> (r->Ok_0)@ == zip_entries(*old(archive))[name@],
{
    let name_str = core::str::from_utf8(name).map_err(|_| ())?;
    let mut entry = archive.by_name(name_str).map_err(|_| ())?;
    let mut data: Vec<u8> = Vec::new();
    std::io::Read::read_to_end(&mut entry, &mut data).map_err(|_| ())?;
    Ok(data)
}

/// The archive entry holding the print configuration.
pub open spec fn config_ini_name() -> Seq<u8> {
    seq![99u8, 111, 110, 102, 105, 103, 46, 105, 110, 105]
}

fn config_ini_name_bytes() -> (r: Vec<u8>)
    ensures
        r@ == config_ini_name(),
{
    let mut v: Vec<u8> = Vec::new();
    v.push(99);
    v.push(111);
    v.push(110);
    v.push(102);
    v.push(105);
    v.push(103);
    v.push(46);
    v.push(105);
    v.push(110);
    v.push(105);
    proof {
        assert(v@ =~= config_ini_name());
    }
    v
}

/// The archive entry holding the small thumbnail.
pub open spec fn thumbnail_small_name() -> Seq<u8> {
    seq![116u8, 104, 117, 109, 98, 110, 97, 105, 108, 47, 116, 104, 117, 109, 98, 110, 97, 105, 108, 52, 48, 48, 120, 52, 48, 48, 46, 112, 110, 103]
}

fn thumbnail_small_name_bytes() -> (r: Vec<u8>)
    ensures
        r@ == thumbnail_small_name(),
{
    let mut v: Vec<u8> = Vec::new();
    v.push(116);
    v.push(104);
    v.push(117);
    v.push(109);
    v.push(98);
    v.push(110);
    v.push(97);
    v.push(105);
    v.push(108);
    v.push(47);
    v.push(116);
    v.push(104);
    v.push(117);
    v.push(109);
    v.push(98);
    v.push(110);
    v.push(97);
    v.push(105);
    v.push(108);
    v.push(52);
    v.push(48);
    v.push(48);
    v.push(120);
    v.push(52);
    v.push(48);
    v.push(48);
    v.push(46);
    v.push(112);
    v.push(110);
    v.push(103);
    proof {
        assert(v@ =~= thumbnail_small_name());
    }
    v
}

/// The archive entry holding the large thumbnail.
pub open spec fn thumbnail_large_name() -> Seq<u8> {
    seq![116u8, 104, 117, 109, 98, 110, 97, 105, 108, 47, 116, 104, 117, 109, 98, 110, 97, 105, 108, 56, 48, 48, 120, 52, 56, 48, 46, 112, 110, 103]
}

fn thumbnail_large_name_bytes() -> (r: Vec<u8>)
    ensures
        r@ == thumbnail_large_name(),
{
    let mut v: Vec<u8> = Vec::new();
    v.push(116);
    v.push(104);
    v.push(117);
    v.push(109);
    v.push(98);
    v.push(110);
    v.push(97);
    v.push(105);
    v.push(108);
    v.push(47);
    v.push(116);
    v.push(104);
    v.push(117);
    v.push(109);
    v.push(98);
    v.push(110);
    v.push(97);
    v.push(105);
    v.push(108);
    v.push(56);
    v.push(48);
    v.push(48);
    v.push(120);
    v.push(52);
    v.push(56);
    v.push(48);
    v.push(46);
    v.push(112);
    v.push(110);
    v.push(103);
    proof {
        assert(v@ =~= thumbnail_large_name());
    }
    v
}

/// The name every thumbnail is served under.
pub open spec fn thumbnail_out_name() -> Seq<u8> {
    seq![116u8, 104, 117, 109, 98, 110, 97, 105, 108, 46, 112, 110, 103]
}

fn thumbnail_out_name_bytes() -> (r: Vec<u8>)
    ensures
        r@ == thumbnail_out_name(),
{
    let mut v: Vec<u8> = Vec::new();
    v.push(116);
    v.push(104);
    v.push(117);
    v.push(109);
    v.push(98);
    v.push(110);
    v.push(97);
    v.push(105);
    v.push(108);
    v.push(46);
    v.push(112);
    v.push(110);
    v.push(103);
    proof {
        assert(v@ =~= thumbnail_out_name());
    }
    v
}

/// The `action` key of `config.ini`.
pub open spec fn key_action() -> Seq<u8> {
    seq![97u8, 99, 116, 105, 111, 110]
}

fn key_action_bytes() -> (r: Vec<u8>)
    ensures
        r@ == key_action(),
{
    let mut v: Vec<u8> = Vec::new();
    v.push(97);
    v.push(99);
    v.push(116);
    v.push(105);
    v.push(111);
    v.push(110);
    proof {
        assert(v@ =~= key_action());
    }
    v
}

/// The `expTime` key of `config.ini`.
pub open spec fn key_exp_time() -> Seq<u8> {
    seq![101u8, 120, 112, 84, 105, 109, 101]
}

fn key_exp_time_bytes() -> (r: Vec<u8>)
    ensures
        r@ == key_exp_time(),
{
    let mut v: Vec<u8> = Vec::new();
    v.push(101);
    v.push(120);
    v.push(112);
    v.push(84);
    v.push(105);
    v.push(109);
    v.push(101);
    proof {
        assert(v@ =~= key_exp_time());
    }
    v
}

/// The `expTimeFirst` key of `config.ini`.
pub open spec fn key_exp_time_first() -> Seq<u8> {
    seq![101u8, 120, 112, 84, 105, 109, 101, 70, 105, 114, 115, 116]
}

fn key_exp_time_first_bytes() -> (r: Vec<u8>)
    ensures
        r@ == key_exp_time_first(),
{
    let mut v: Vec<u8> = Vec::new();
    v.push(101);
    v.push(120);
    v.push(112);
    v.push(84);
    v.push(105);
    v.push(109);
    v.push(101);
    v.push(70);
    v.push(105);
    v.push(114);
    v.push(115);
    v.push(116);
    proof {
        assert(v@ =~= key_exp_time_first());
    }
    v
}

/// The `expUserProfile` key of `config.ini`.
pub open spec fn key_exp_user_profile() -> Seq<u8> {
    seq![101u8, 120, 112, 85, 115, 101, 114, 80, 114, 111, 102, 105, 108, 101]
}

fn key_exp_user_profile_bytes() -> (r: Vec<u8>)
    ensures
        r@ == key_exp_user_profile(),
{
    let mut v: Vec<u8> = Vec::new();
    v.push(101);
    v.push(120);
    v.push(112);
    v.push(85);
    v.push(115);
    v.push(101);
    v.push(114);
    v.push(80);
    v.push(114);
    v.push(111);
    v.push(102);
    v.push(105);
    v.push(108);
    v.push(101);
    proof {
        assert(v@ =~= key_exp_user_profile());
    }
    v
}

/// The `fileCreationTimestamp` key of `config.ini`.
pub open spec fn key_file_creation_timestamp() -> Seq<u8> {
    seq![102u8, 105, 108, 101, 67, 114, 101, 97, 116, 105, 111, 110, 84, 105, 109, 101, 115, 116, 97, 109, 112]
}

fn key_file_creation_timestamp_bytes() -> (r: Vec<u8>)
    ensures
        r@ == key_file_creation_timestamp(),
{
    let mut v: Vec<u8> = Vec::new();
    v.push(102);
    v.push(105);
    v.push(108);
    v.push(101);
    v.push(67);
    v.push(114);
    v.push(101);
    v.push(97);
    v.push(116);
    v.push(105);
    v.push(111);
    v.push(110);
    v.push(84);
    v.push(105);
    v.push(109);
    v.push(101);
    v.push(115);
    v.push(116);
    v.push(97);
    v.push(109);
    v.push(112);
    proof {
        assert(v@ =~= key_file_creation_timestamp());
    }
    v
}

/// The `hollow` key of `config.ini`.
pub open spec fn key_hollow() -> Seq<u8> {
    seq![104u8, 111, 108, 108, 111, 119]
}

fn key_hollow_bytes() -> (r: Vec<u8>)
    ensures
        r@ == key_hollow(),
{
    let mut v: Vec<u8> = Vec::new();
    v.push(104);
    v.push(111);
    v.push(108);
    v.push(108);
    v.push(111);
    v.push(119);
    proof {
        assert(v@ =~= key_hollow());
    }
    v
}

/// The `jobDir` key of `config.ini`.
pub open spec fn key_job_dir() -> Seq<u8> {
    seq![106u8, 111, 98, 68, 105, 114]
}

fn key_job_dir_bytes() -> (r: Vec<u8>)
    ensures
        r@ == key_job_dir(),
{
    let mut v: Vec<u8> = Vec::new();
    v.push(106);
    v.push(111);
    v.push(98);
    v.push(68);
    v.push(105);
    v.push(114);
    proof {
        assert(v@ =~= key_job_dir());
    }
    v
}

/// The `layerHeight` key of `config.ini`.
pub open spec fn key_layer_height() -> Seq<u8> {
    seq![108u8, 97, 121, 101, 114, 72, 101, 105, 103, 104, 116]
}

fn key_layer_height_bytes() -> (r: Vec<u8>)
    ensures
        r@ == key_layer_height(),
{
    let mut v: Vec<u8> = Vec::new();
    v.push(108);
    v.push(97);
    v.push(121);
    v.push(101);
    v.push(114);
    v.push(72);
    v.push(101);
    v.push(105);
    v.push(103);
    v.push(104);
    v.push(116);
    proof {
        assert(v@ =~= key_layer_height());
    }
    v
}

/// The `materialName` key of `config.ini`.
pub open spec fn key_material_name() -> Seq<u8> {
    seq![109u8, 97, 116, 101, 114, 105, 97, 108, 78, 97, 109, 101]
}

fn key_material_name_bytes() -> (r: Vec<u8>)
    ensures
        r@ == key_material_name(),
{
    let mut v: Vec<u8> = Vec::new();
    v.push(109);
    v.push(97);
    v.push(116);
    v.push(101);
    v.push(114);
    v.push(105);
    v.push(97);
    v.push(108);
    v.push(78);
    v.push(97);
    v.push(109);
    v.push(101);
    proof {
        assert(v@ =~= key_material_name());
    }
    v
}

/// The `numFade` key of `config.ini`.
pub open spec fn key_num_fade() -> Seq<u8> {
    seq![110u8, 117, 109, 70, 97, 100, 101]
}

fn key_num_fade_bytes() -> (r: Vec<u8>)
    ensures
        r@ == key_num_fade(),
{
    let mut v: Vec<u8> = Vec::new();
    v.push(110);
    v.push(117);
    v.push(109);
    v.push(70);
    v.push(97);
    v.push(100);
    v.push(101);
    proof {
        assert(v@ =~= key_num_fade());
    }
    v
}

/// The `numFast` key of `config.ini`.
pub open spec fn key_num_fast() -> Seq<u8> {
    seq![110u8, 117, 109, 70, 97, 115, 116]
}

fn key_num_fast_bytes() -> (r: Vec<u8>)
    ensures
        r@ == key_num_fast(),
{
    let mut v: Vec<u8> = Vec::new();
    v.push(110);
    v.push(117);
    v.push(109);
    v.push(70);
    v.push(97);
    v.push(115);
    v.push(116);
    proof {
        assert(v@ =~= key_num_fast());
    }
    v
}

/// The `numSlow` key of `config.ini`.
pub open spec fn key_num_slow() -> Seq<u8> {
    seq![110u8, 117, 109, 83, 108, 111, 119]
}

fn key_num_slow_bytes() -> (r: Vec<u8>)
    ensures
        r@ == key_num_slow(),
{
    let mut v: Vec<u8> = Vec::new();
    v.push(110);
    v.push(117);
    v.push(109);
    v.push(83);
    v.push(108);
    v.push(111);
    v.push(119);
    proof {
        assert(v@ =~= key_num_slow());
    }
    v
}

/// The `printProfile` key of `config.ini`.
pub open spec fn key_print_profile() -> Seq<u8> {
    seq![112u8, 114, 105, 110, 116, 80, 114, 111, 102, 105, 108, 101]
}

fn key_print_profile_bytes() -> (r: Vec<u8>)
    ensures
        r@ == key_print_profile(),
{
    let mut v: Vec<u8> = Vec::new();
    v.push(112);
    v.push(114);
    v.push(105);
    v.push(110);
    v.push(116);
    v.push(80);
    v.push(114);
    v.push(111);
    v.push(102);
    v.push(105);
    v.push(108);
    v.push(101);
    proof {
        assert(v@ =~= key_print_profile());
    }
    v
}

/// The `printTime` key of `config.ini`.
pub open spec fn key_print_time() -> Seq<u8> {
    seq![112u8, 114, 105, 110, 116, 84, 105, 109, 101]
}

fn key_print_time_bytes() -> (r: Vec<u8>)
    ensures
        r@ == key_print_time(),
{
    let mut v: Vec<u8> = Vec::new();
    v.push(112);
    v.push(114);
    v.push(105);
    v.push(110);
    v.push(116);
    v.push(84);
    v.push(105);
    v.push(109);
    v.push(101);
    proof {
        assert(v@ =~= key_print_time());
    }
    v
}

/// The `printerModel` key of `config.ini`.
pub open spec fn key_printer_model() -> Seq<u8> {
    seq![112u8, 114, 105, 110, 116, 101, 114, 77, 111, 100, 101, 108]
}

fn key_printer_model_bytes() -> (r: Vec<u8>)
    ensures
        r@ == key_printer_model(),
{
    let mut v: Vec<u8> = Vec::new();
    v.push(112);
    v.push(114);
    v.push(105);
    v.push(110);
    v.push(116);
    v.push(101);
    v.push(114);
    v.push(77);
    v.push(111);
    v.push(100);
    v.push(101);
    v.push(108);
    proof {
        assert(v@ =~= key_printer_model());
    }
    v
}

/// The `printerProfile` key of `config.ini`.
pub open spec fn key_printer_profile() -> Seq<u8> {
    seq![112u8, 114, 105, 110, 116, 101, 114, 80, 114, 111, 102, 105, 108, 101]
}

fn key_printer_profile_bytes() -> (r: Vec<u8>)
    ensures
        r@ == key_printer_profile(),
{
    let mut v: Vec<u8> = Vec::new();
    v.push(112);
    v.push(114);
    v.push(105);
    v.push(110);
    v.push(116);
    v.push(101);
    v.push(114);
    v.push(80);
    v.push(114);
    v.push(111);
    v.push(102);
    v.push(105);
    v.push(108);
    v.push(101);
    proof {
        assert(v@ =~= key_printer_profile());
    }
    v
}

/// The `printerVariant` key of `config.ini`.
pub open spec fn key_printer_variant() -> Seq<u8> {
    seq![112u8, 114, 105, 110, 116, 101, 114, 86, 97, 114, 105, 97, 110, 116]
}

fn key_printer_variant_bytes() -> (r: Vec<u8>)
    ensures
        r@ == key_printer_variant(),
{
    let mut v: Vec<u8> = Vec::new();
    v.push(112);
    v.push(114);
    v.push(105);
    v.push(110);
    v.push(116);
    v.push(101);
    v.push(114);
    v.push(86);
    v.push(97);
    v.push(114);
    v.push(105);
    v.push(97);
    v.push(110);
    v.push(116);
    proof {
        assert(v@ =~= key_printer_variant());
    }
    v
}

/// The `prusaSlicerVersion` key of `config.ini`.
pub open spec fn key_prusa_slicer_version() -> Seq<u8> {
    seq![112u8, 114, 117, 115, 97, 83, 108, 105, 99, 101, 114, 86, 101, 114, 115, 105, 111, 110]
}

fn key_prusa_slicer_version_bytes() -> (r: Vec<u8>)
    ensures
        r@ == key_prusa_slicer_version(),
{
    let mut v: Vec<u8> = Vec::new();
    v.push(112);
    v.push(114);
    v.push(117);
    v.push(115);
    v.push(97);
    v.push(83);
    v.push(108);
    v.push(105);
    v.push(99);
    v.push(101);
    v.push(114);
    v.push(86);
    v.push(101);
    v.push(114);
    v.push(115);
    v.push(105);
    v.push(111);
    v.push(110);
    proof {
        assert(v@ =~= key_prusa_slicer_version());
    }
    v
}

/// The `usedMaterial` key of `config.ini`.
pub open spec fn key_used_material() -> Seq<u8> {
    seq![117u8, 115, 101, 100, 77, 97, 116, 101, 114, 105, 97, 108]
}

fn key_used_material_bytes() -> (r: Vec<u8>)
    ensures
        r@ == key_used_material(),
{
    let mut v: Vec<u8> = Vec::new();
    v.push(117);
    v.push(115);
    v.push(101);
    v.push(100);
    v.push(77);
    v.push(97);
    v.push(116);
    v.push(101);
    v.push(114);
    v.push(105);
    v.push(97);
    v.push(108);
    proof {
        assert(v@ =~= key_used_material());
    }
    v
}


/// The key and value of an INI line: the text left and right of the
/// first equals sign, trimmed; a line without one binds nothing.
pub open spec fn spec_ini_kv(line: Seq<u8>) -> Option<(Seq<u8>, Seq<u8>)> {
    let e = spec_find(line, 61);
    if e >= line.len() {
        None
    } else {
        Some((spec_trim(line.take(e)), spec_trim(line.skip(e + 1))))
    }
}

/// The value of the first line binding `key`.
pub open spec fn spec_ini_lookup(lines: Seq<Seq<u8>>, key: Seq<u8>) -> Option<Seq<u8>>
    decreases lines.len(),
{
    if lines.len() == 0 {
        None
    } else {
        match spec_ini_kv(lines[0]) {
            Some(kv) => if kv.0 == key {
                Some(kv.1)
            } else {
                spec_ini_lookup(lines.skip(1), key)
            },
            None => spec_ini_lookup(lines.skip(1), key),
        }
    }
}

/// The value bound to `key` in INI contents.
pub open spec fn spec_ini_value(content: Seq<u8>, key: Seq<u8>) -> Option<Seq<u8>> {
    spec_ini_lookup(spec_split_lines(content), key)
}

/// A millisecond/micron-scaled numeric field: the key's value parsed as
/// a decimal into thousandths.
pub open spec fn spec_milli_field(content: Seq<u8>, key: Seq<u8>) -> Option<u64> {
    match spec_ini_value(content, key) {
        Some(v) => spec_parse_milli(v),
        None => None,
    }
}

/// An integer field: the key's value parsed as an unsigned decimal.
pub open spec fn spec_u64_field(content: Seq<u8>, key: Seq<u8>) -> Option<u64> {
    match spec_ini_value(content, key) {
        Some(v) => spec_parse_u64(v),
        None => None,
    }
}

/// Looks up `key` among the parsed lines.
fn ini_lookup(lines: &Vec<Vec<u8>>, key: &[u8]) -> (r: Option<Vec<u8>>)
    ensures
        match r {
            Some(v) => spec_ini_lookup(lines@.map_values(|l: Vec<u8>| l@), key@) == Some(v@),
            None => spec_ini_lookup(lines@.map_values(|l: Vec<u8>| l@), key@) is None,
        },
{
    let ghost lview = lines@.map_values(|l: Vec<u8>| l@);
    let n = lines.len();
    let mut i: usize = 0;
    proof {
        assert(lview.skip(0) =~= lview);
    }
    while i < n
        invariant
            0 <= i <= n,
            n == lines@.len(),
            lview == lines@.map_values(|l: Vec<u8>| l@),
            spec_ini_lookup(lview, key@) == spec_ini_lookup(lview.skip(i as int), key@),
        decreases n - i,
    {
        let line = &lines[i];
        let llen = line.len();
        proof {
            assert(lview.skip(i as int)[0] == line@);
            assert(lview.skip(i as int).skip(1) =~= lview.skip(i as int + 1));
        }
        let e = find_byte(line.as_slice(), 0, 61);
        proof {
            assert(line@.skip(0) =~= line@);
        }
        if e < llen {
            let key_part = copy_range(line.as_slice(), 0, e);
            let k = trim_bytes(key_part.as_slice());
            proof {
                assert(key_part@ =~= line@.take(e as int));
            }
            if bytes_eq(k.as_slice(), key) {
                let value_part = copy_range(line.as_slice(), e + 1, llen);
                let v = trim_bytes(value_part.as_slice());
                proof {
                    assert(value_part@ =~= line@.skip(e + 1));
                }
                return Some(v);
            }
        }
        i = i + 1;
    }
    proof {
        assert(lview.skip(n as int) =~= Seq::<Seq<u8>>::empty());
    }
    None
}

/// The print configuration carried in `config.ini`: times in
/// milliseconds, the layer height in microns, material in millilitre
/// thousandths; the camelCase keys of the file are fixed.
#[derive(Clone, Debug)]
pub struct PrintConfig {
    pub action: Vec<u8>,
    pub exp_time_ms: u64,
    pub exp_time_first_ms: u64,
    pub exp_user_profile: u64,
    pub file_creation_timestamp: Vec<u8>,
    pub hollow: u64,
    pub job_dir: Vec<u8>,
    pub layer_height_microns: u32,
    pub material_name: Vec<u8>,
    pub num_fade: usize,
    pub num_fast: u64,
    pub num_slow: u64,
    pub print_profile: Vec<u8>,
    pub print_time_ms: u64,
    pub printer_model: Vec<u8>,
    pub printer_profile: Vec<u8>,
    pub printer_variant: Vec<u8>,
    pub prusa_slicer_version: Vec<u8>,
    pub used_material_milli: u64,
}

/// Whether INI contents carry every required key with a parseable and
/// representable value.
pub open spec fn spec_config_ok(content: Seq<u8>) -> bool {
    &&& spec_ini_value(content, key_action()) is Some
    &&& spec_milli_field(content, key_exp_time()) is Some
    &&& spec_milli_field(content, key_exp_time_first()) is Some
    &&& spec_u64_field(content, key_exp_user_profile()) is Some
    &&& spec_ini_value(content, key_file_creation_timestamp()) is Some
    &&& spec_u64_field(content, key_hollow()) is Some
    &&& spec_ini_value(content, key_job_dir()) is Some
    &&& spec_milli_field(content, key_layer_height()) is Some
    &&& spec_milli_field(content, key_layer_height())->0 <= u32::MAX
    &&& spec_ini_value(content, key_material_name()) is Some
    &&& spec_u64_field(content, key_num_fade()) is Some
    &&& spec_u64_field(content, key_num_fade())->0 <= usize::MAX
    &&& spec_u64_field(content, key_num_fast()) is Some
    &&& spec_u64_field(content, key_num_slow()) is Some
    &&& spec_ini_value(content, key_print_profile()) is Some
    &&& spec_milli_field(content, key_print_time()) is Some
    &&& spec_ini_value(content, key_printer_model()) is Some
    &&& spec_ini_value(content, key_printer_profile()) is Some
    &&& spec_ini_value(content, key_printer_variant()) is Some
    &&& spec_ini_value(content, key_prusa_slicer_version()) is Some
    &&& spec_milli_field(content, key_used_material()) is Some
}

/// Whether a parsed configuration carries exactly the values of the
/// INI contents.
pub open spec fn spec_config_matches(c: PrintConfig, content: Seq<u8>) -> bool {
    &&& spec_ini_value(content, key_action()) == Some(c.action@)
    &&& spec_milli_field(content, key_exp_time()) == Some(c.exp_time_ms)
    &&& spec_milli_field(content, key_exp_time_first()) == Some(c.exp_time_first_ms)
    &&& spec_u64_field(content, key_exp_user_profile()) == Some(c.exp_user_profile)
    &&& spec_ini_value(content, key_file_creation_timestamp()) == Some(
        c.file_creation_timestamp@,
    )
    &&& spec_u64_field(content, key_hollow()) == Some(c.hollow)
    &&& spec_ini_value(content, key_job_dir()) == Some(c.job_dir@)
    &&& spec_milli_field(content, key_layer_height()) == Some(c.layer_height_microns as u64)
    &&& spec_ini_value(content, key_material_name()) == Some(c.material_name@)
    &&& spec_u64_field(content, key_num_fade()) == Some(c.num_fade as u64)
    &&& spec_u64_field(content, key_num_fast()) == Some(c.num_fast)
    &&& spec_u64_field(content, key_num_slow()) == Some(c.num_slow)
    &&& spec_ini_value(content, key_print_profile()) == Some(c.print_profile@)
    &&& spec_milli_field(content, key_print_time()) == Some(c.print_time_ms)
    &&& spec_ini_value(content, key_printer_model()) == Some(c.printer_model@)
    &&& spec_ini_value(content, key_printer_profile()) == Some(c.printer_profile@)
    &&& spec_ini_value(content, key_printer_variant()) == Some(c.printer_variant@)
    &&& spec_ini_value(content, key_prusa_slicer_version()) == Some(c.prusa_slicer_version@)
    &&& spec_milli_field(content, key_used_material()) == Some(c.used_material_milli)
}

/// The fade-exposure rule: for the first `num_fade` layers the exposure
/// ramps linearly from the first-layer exposure down to the nominal
/// one; from layer `num_fade` on it is the nominal exposure.
pub open spec fn spec_exposure_time(exp: u64, first: u64, fade: usize, i: usize) -> int {
    if i < fade {
        if first >= exp {
            exp + ((first - exp) * (fade - i)) / (fade as int)
        } else {
            exp - ((exp - first) * (fade - i)) / (fade as int)
        }
    } else {
        exp as int
    }
}

/// Law (fade-exposure formula): the first layer is exposed for the full
/// first-layer time, and layer `num_fade` (and everything after it) for
/// the nominal time.
pub proof fn lemma_fade_exposure_ends(exp: u64, first: u64, fade: usize)
    ensures
        fade > 0 ==> spec_exposure_time(exp, first, fade, 0) == first,
        spec_exposure_time(exp, first, fade, fade) == exp,
{
    if fade > 0 {
        if first >= exp {
            assert(((first - exp) * (fade - 0)) / (fade as int) == first - exp)
                by (nonlinear_arith)
                requires
                    fade > 0,
            ;
        } else {
            assert(((exp - first) * (fade - 0)) / (fade as int) == exp - first)
                by (nonlinear_arith)
                requires
                    fade > 0,
            ;
        }
    }
}

impl PrintConfig {
    /// The exposure time of the layer at `index`, by the fade rule.
    pub fn exposure_time(&self, index: usize) -> (r: u64)
        ensures
            r == spec_exposure_time(self.exp_time_ms, self.exp_time_first_ms, self.num_fade, index),
    {
        let exp = self.exp_time_ms;
        let first = self.exp_time_first_ms;
        let fade = self.num_fade;
        if index < fade {
            let remaining: u128 = (fade - index) as u128;
            if first >= exp {
                let diff: u128 = (first - exp) as u128;
                proof {
                    assert(diff * remaining <= u128::MAX) by (nonlinear_arith)
                        requires
                            diff <= u64::MAX,
                            remaining <= u64::MAX,
                    ;
                }
                let ramp: u128 = (diff * remaining) / (fade as u128);
                proof {
                    assert(diff * remaining / (fade as int) <= diff) by (nonlinear_arith)
                        requires
                            0 < fade,
                            remaining == fade - index,
                            0 <= index < fade,
                            diff >= 0,
                    ;
                }
                exp + (ramp as u64)
            } else {
                let diff: u128 = (exp - first) as u128;
                proof {
                    assert(diff * remaining <= u128::MAX) by (nonlinear_arith)
                        requires
                            diff <= u64::MAX,
                            remaining <= u64::MAX,
                    ;
                }
                let ramp: u128 = (diff * remaining) / (fade as u128);
                proof {
                    assert(diff * remaining / (fade as int) <= diff) by (nonlinear_arith)
                        requires
                            0 < fade,
                            remaining == fade - index,
                            0 <= index < fade,
                            diff >= 0,
                    ;
                }
                exp - (ramp as u64)
            }
        } else {
            exp
        }
    }

    /// Parses `config.ini` contents; succeeds exactly when every
    /// required key is present with a parseable, representable value,
    /// and then carries exactly those values.
    pub fn from_bytes(contents: &[u8]) -> (r: Result<PrintConfig, OdysseyError>)
        ensures
            match r {
                Ok(c) => spec_config_ok(contents@) && spec_config_matches(c, contents@),
                Err(e) => !spec_config_ok(contents@) && e.error_type
                    == ErrorType::ConfigurationError,
            },
    {
        let lines = split_lines(contents);
        let action = match ini_lookup(&lines, key_action_bytes().as_slice()) {
            Some(v) => v,
            None => {
                return Err(OdysseyError::configuration_error(key_action_bytes(), 500));
            },
        };
        let exp_time_ms = match lookup_milli(&lines, key_exp_time_bytes()) {
            Ok(v) => v,
            Err(e) => {
                return Err(e);
            },
        };
        let exp_time_first_ms = match lookup_milli(&lines, key_exp_time_first_bytes()) {
            Ok(v) => v,
            Err(e) => {
                return Err(e);
            },
        };
        let exp_user_profile = match lookup_u64(&lines, key_exp_user_profile_bytes()) {
            Ok(v) => v,
            Err(e) => {
                return Err(e);
            },
        };
        let file_creation_timestamp = match ini_lookup(
            &lines,
            key_file_creation_timestamp_bytes().as_slice(),
        ) {
            Some(v) => v,
            None => {
                return Err(
                    OdysseyError::configuration_error(key_file_creation_timestamp_bytes(), 500),
                );
            },
        };
        let hollow = match lookup_u64(&lines, key_hollow_bytes()) {
            Ok(v) => v,
            Err(e) => {
                return Err(e);
            },
        };
        let job_dir = match ini_lookup(&lines, key_job_dir_bytes().as_slice()) {
            Some(v) => v,
            None => {
                return Err(OdysseyError::configuration_error(key_job_dir_bytes(), 500));
            },
        };
        let layer_height_milli = match lookup_milli(&lines, key_layer_height_bytes()) {
            Ok(v) => v,
            Err(e) => {
                return Err(e);
            },
        };
        if layer_height_milli > 0xFFFF_FFFF {
            return Err(OdysseyError::configuration_error(key_layer_height_bytes(), 500));
        }
        let layer_height_microns: u32 = layer_height_milli as u32;
        let material_name = match ini_lookup(&lines, key_material_name_bytes().as_slice()) {
            Some(v) => v,
            None => {
                return Err(OdysseyError::configuration_error(key_material_name_bytes(), 500));
            },
        };
        let num_fade_64 = match lookup_u64(&lines, key_num_fade_bytes()) {
            Ok(v) => v,
            Err(e) => {
                return Err(e);
            },
        };
        if num_fade_64 > usize::MAX as u64 {
            return Err(OdysseyError::configuration_error(key_num_fade_bytes(), 500));
        }
        let num_fade: usize = num_fade_64 as usize;
        let num_fast = match lookup_u64(&lines, key_num_fast_bytes()) {
            Ok(v) => v,
            Err(e) => {
                return Err(e);
            },
        };
        let num_slow = match lookup_u64(&lines, key_num_slow_bytes()) {
            Ok(v) => v,
            Err(e) => {
                return Err(e);
            },
        };
        let print_profile = match ini_lookup(&lines, key_print_profile_bytes().as_slice()) {
            Some(v) => v,
            None => {
                return Err(OdysseyError::configuration_error(key_print_profile_bytes(), 500));
            },
        };
        let print_time_ms = match lookup_milli(&lines, key_print_time_bytes()) {
            Ok(v) => v,
            Err(e) => {
                return Err(e);
            },
        };
        let printer_model = match ini_lookup(&lines, key_printer_model_bytes().as_slice()) {
            Some(v) => v,
            None => {
                return Err(OdysseyError::configuration_error(key_printer_model_bytes(), 500));
            },
        };
        let printer_profile = match ini_lookup(&lines, key_printer_profile_bytes().as_slice()) {
            Some(v) => v,
            None => {
                return Err(OdysseyError::configuration_error(key_printer_profile_bytes(), 500));
            },
        };
        let printer_variant = match ini_lookup(&lines, key_printer_variant_bytes().as_slice()) {
            Some(v) => v,
            None => {
                return Err(OdysseyError::configuration_error(key_printer_variant_bytes(), 500));
            },
        };
        let prusa_slicer_version = match ini_lookup(
            &lines,
            key_prusa_slicer_version_bytes().as_slice(),
        ) {
            Some(v) => v,
            None => {
                return Err(
                    OdysseyError::configuration_error(key_prusa_slicer_version_bytes(), 500),
                );
            },
        };
        let used_material_milli = match lookup_milli(&lines, key_used_material_bytes()) {
            Ok(v) => v,
            Err(e) => {
                return Err(e);
            },
        };
        Ok(
            PrintConfig {
                action,
                exp_time_ms,
                exp_time_first_ms,
                exp_user_profile,
                file_creation_timestamp,
                hollow,
                job_dir,
                layer_height_microns,
                material_name,
                num_fade,
                num_fast,
                num_slow,
                print_profile,
                print_time_ms,
                printer_model,
                printer_profile,
                printer_variant,
                prusa_slicer_version,
                used_material_milli,
            },
        )
    }
}

/// A required milli-scaled field, or the configuration error naming its
/// key.
fn lookup_milli(lines: &Vec<Vec<u8>>, key: Vec<u8>) -> (r: Result<u64, OdysseyError>)
    ensures
        match r {
            Ok(v) => (match spec_ini_lookup(lines@.map_values(|l: Vec<u8>| l@), key@) {
                Some(t) => spec_parse_milli(t),
                None => None,
            }) == Some(v),
            Err(e) => (match spec_ini_lookup(lines@.map_values(|l: Vec<u8>| l@), key@) {
                Some(t) => spec_parse_milli(t),
                None => None::<u64>,
            }) is None && e.error_type == ErrorType::ConfigurationError,
        },
{
    match ini_lookup(lines, key.as_slice()) {
        Some(v) => match parse_milli(v.as_slice()) {
            Some(n) => Ok(n),
            None => Err(OdysseyError::configuration_error(key, 500)),
        },
        None => Err(OdysseyError::configuration_error(key, 500)),
    }
}

/// A required integer field, or the configuration error naming its key.
fn lookup_u64(lines: &Vec<Vec<u8>>, key: Vec<u8>) -> (r: Result<u64, OdysseyError>)
    ensures
        match r {
            Ok(v) => (match spec_ini_lookup(lines@.map_values(|l: Vec<u8>| l@), key@) {
                Some(t) => spec_parse_u64(t),
                None => None,
            }) == Some(v),
            Err(e) => (match spec_ini_lookup(lines@.map_values(|l: Vec<u8>| l@), key@) {
                Some(t) => spec_parse_u64(t),
                None => None::<u64>,
            }) is None && e.error_type == ErrorType::ConfigurationError,
        },
{
    match ini_lookup(lines, key.as_slice()) {
        Some(v) => match parse_u64(v.as_slice()) {
            Some(n) => Ok(n),
            None => Err(OdysseyError::configuration_error(key, 500)),
        },
        None => Err(OdysseyError::configuration_error(key, 500)),
    }
}

/// Whether an entry name is a layer mask: a top-level `.png` file.
pub open spec fn spec_is_frame_name(n: Seq<u8>) -> bool {
    &&& n.len() >= 4
    &&& n.subrange(n.len() - 4, n.len() as int) == seq![46u8, 112, 110, 103]
    &&& forall|j: int| 0 <= j < n.len() ==> n[j] != 47
}

/// Tests a name for the top-level `.png` shape.
fn is_frame_name(n: &[u8]) -> (r: bool)
    ensures
        r == spec_is_frame_name(n@),
{
    let len = n.len();
    if len < 4 {
        return false;
    }
    let suffix_ok = n[len - 4] == 46 && n[len - 3] == 112 && n[len - 2] == 110 && n[len - 1]
        == 103;
    if !suffix_ok {
        proof {
            assert(n@.subrange(n@.len() - 4, n@.len() as int) != seq![46u8, 112, 110, 103]) by {
                if n@.subrange(n@.len() - 4, n@.len() as int) == seq![46u8, 112, 110, 103] {
                    assert(n@.subrange(n@.len() - 4, n@.len() as int)[0] == n@[len - 4]);
                    assert(n@.subrange(n@.len() - 4, n@.len() as int)[1] == n@[len - 3]);
                    assert(n@.subrange(n@.len() - 4, n@.len() as int)[2] == n@[len - 2]);
                    assert(n@.subrange(n@.len() - 4, n@.len() as int)[3] == n@[len - 1]);
                }
            }
        }
        return false;
    }
    proof {
        assert(n@.subrange(n@.len() - 4, n@.len() as int) =~= seq![46u8, 112, 110, 103]);
    }
    let mut j: usize = 0;
    while j < len
        invariant
            0 <= j <= len,
            len == n@.len(),
            forall|m: int| 0 <= m < j ==> n@[m] != 47,
        decreases len - j,
    {
        if n[j] == 47 {
            return false;
        }
        j = j + 1;
    }
    true
}

/// The sliced `.sl1` archive: its configuration, the container, the
/// sorted mask list, and the per-print metadata.
pub struct Sl1 {
    pub config: PrintConfig,
    pub archive: zip::ZipArchive<std::io::Cursor<Vec<u8>>>,
    pub frame_list: Vec<Vec<u8>>,
    pub metadata: PrintMetadata,
}

impl Sl1 {
    /// The reader's invariant: the mask list holds exactly the archive's
    /// top-level `.png` entries, sorted so that name order is layer
    /// order, without duplicates; the metadata mirrors the list and the
    /// configuration.
    pub open spec fn wf(&self) -> bool {
        &&& self.metadata.layer_count == self.frame_list@.len()
        &&& self.metadata.layer_height_microns == self.config.layer_height_microns
        &&& self.metadata.used_material_milli == self.config.used_material_milli
        &&& self.metadata.print_time_ms == self.config.print_time_ms
        &&& forall|i: int|
            0 <= i < self.frame_list@.len() ==> zip_entries(self.archive).dom().contains(
                (#[trigger] self.frame_list@[i])@,
            ) && spec_is_frame_name(self.frame_list@[i]@)
        &&& forall|i: int, j: int|
            0 <= i < j < self.frame_list@.len() ==> lex_le(
                (#[trigger] self.frame_list@[i])@,
                (#[trigger] self.frame_list@[j])@,
            )
        &&& forall|i: int, j: int|
            0 <= i < j < self.frame_list@.len() ==> (#[trigger] self.frame_list@[i])@ != (
            #[trigger] self.frame_list@[j])@
        &&& forall|n: Seq<u8>|
            zip_entries(self.archive).dom().contains(n) && spec_is_frame_name(n) ==> has_name(
                self.frame_list@,
                n,
            )
    }

    /// Opens a sliced archive from its bytes.  Exact in the bytes: it
    /// succeeds precisely when the container parses, `config.ini` is
    /// present, readable and well-formed, and the entry names can be
    /// listed; a configuration whose keys fail is a configuration error
    /// and everything else a file error.
    pub fn open(
        file_data: FileMetadata,
        data: Vec<u8>,
        user_metadata: PrintUserMetadata,
    ) -> (r: Result<Sl1, OdysseyError>)
        ensures
            r is Ok <==> ({
                &&& zip_parse(data@) is Some
                &&& (zip_parse(data@)->0).dom().contains(config_ini_name())
                &&& zip_entry_readable(data@, config_ini_name())
                &&& spec_config_ok((zip_parse(data@)->0)[config_ini_name()])
                &&& zip_listable(data@)
            }),
            match r {
                Ok(s) => {
                    &&& s.wf()
                    &&& s.metadata.file_data == file_data
                    &&& s.metadata.user_metadata == user_metadata
                    &&& Some(zip_entries(s.archive)) == zip_parse(data@)
                    &&& names_listable(s.archive)
                    &&& entry_readable(s.archive, config_ini_name())
                    &&& spec_config_matches(s.config, zip_entries(s.archive)[config_ini_name()])
                },
                Err(e) => e.error_type == (if zip_parse(data@) is None || !((
                    zip_parse(data@)->0).dom().contains(config_ini_name())
                    && zip_entry_readable(data@, config_ini_name())) {
                    ErrorType::FileError
                } else if !spec_config_ok((zip_parse(data@)->0)[config_ini_name()]) {
                    ErrorType::ConfigurationError
                } else {
                    ErrorType::FileError
                }),
            },
    {
        let archive = match zip_open(data) {
            Ok(a) => a,
            Err(_) => {
                return Err(OdysseyError::file_error(Vec::new(), 400));
            },
        };
        Sl1::from_archive(file_data, archive, user_metadata)
    }

    /// Builds the reader over an already-parsed container: `config.ini`
    /// is read and parsed and the mask list is collected and sorted.
    /// Exact in the container: it succeeds precisely when the
    /// configuration entry is present, readable and well-formed and the
    /// entry names can be listed; a configuration whose keys fail is a
    /// configuration error and everything else a file error.
    pub fn from_archive(
        file_data: FileMetadata,
        archive: zip::ZipArchive<std::io::Cursor<Vec<u8>>>,
        user_metadata: PrintUserMetadata,
    ) -> (r: Result<Sl1, OdysseyError>)
        ensures
            r is Ok <==> ({
                &&& zip_entries(archive).dom().contains(config_ini_name())
                &&& entry_readable(archive, config_ini_name())
                &&& spec_config_ok(zip_entries(archive)[config_ini_name()])
                &&& names_listable(archive)
            }),
            match r {
                Ok(s) => {
                    &&& s.wf()
                    &&& s.metadata.file_data == file_data
                    &&& s.metadata.user_metadata == user_metadata
                    &&& zip_entries(s.archive) == zip_entries(archive)
                    &&& names_listable(s.archive)
                    &&& forall|n: Seq<u8>| #[trigger]
                        entry_readable(s.archive, n) == entry_readable(archive, n)
                    &&& spec_config_matches(s.config, zip_entries(archive)[config_ini_name()])
                },
                Err(e) => e.error_type == (if !(zip_entries(archive).dom().contains(
                    config_ini_name(),
                ) && entry_readable(archive, config_ini_name())) {
                    ErrorType::FileError
                } else if !spec_config_ok(zip_entries(archive)[config_ini_name()]) {
                    ErrorType::ConfigurationError
                } else {
                    ErrorType::FileError
                }),
            },
    {
        let mut archive = archive;
        let ini_name = config_ini_name_bytes();
        let config_contents = match zip_read_entry(&mut archive, ini_name.as_slice()) {
            Ok(c) => c,
            Err(_) => {
                return Err(OdysseyError::file_error(ini_name, 404));
            },
        };
        let config = match PrintConfig::from_bytes(config_contents.as_slice()) {
            Ok(c) => c,
            Err(e) => {
                return Err(e);
            },
        };
        let names = match zip_file_names(&mut archive) {
            Ok(n) => n,
            Err(_) => {
                return Err(OdysseyError::file_error(Vec::new(), 400));
            },
        };
        let nn = names.len();
        let mut kept: Vec<Vec<u8>> = Vec::new();
        let mut i: usize = 0;
        while i < nn
            invariant
                0 <= i <= nn,
                nn == names@.len(),
                forall|a: int|
                    0 <= a < names@.len() ==> zip_entries(archive).dom().contains(
                        (#[trigger] names@[a])@,
                    ),
                forall|n: Seq<u8>|
                    zip_entries(archive).dom().contains(n) ==> exists|a: int|
                        0 <= a < names@.len() && (#[trigger] names@[a])@ == n,
                forall|a: int, b: int|
                    0 <= a < b < names@.len() ==> (#[trigger] names@[a])@ != (
                    #[trigger] names@[b])@,
                forall|a: int|
                    0 <= a < kept@.len() ==> zip_entries(archive).dom().contains(
                        (#[trigger] kept@[a])@,
                    ) && spec_is_frame_name(kept@[a]@),
                forall|a: int, b: int|
                    0 <= a < b < kept@.len() ==> (#[trigger] kept@[a])@ != (#[trigger] kept@[b])@,
                forall|a: int|
                    0 <= a < i && spec_is_frame_name((#[trigger] names@[a])@) ==> has_name(
                        kept@,
                        names@[a]@,
                    ),
                forall|x: Seq<u8>| #[trigger]
                    has_name(kept@, x) ==> exists|a: int|
                        0 <= a < i && (#[trigger] names@[a])@ == x,
            decreases nn - i,
        {
            let name = &names[i];
            if is_frame_name(name.as_slice()) {
                let ghost kept_before = kept@;
                let copied = clone_bytes(name);
                proof {
                    if has_name(kept@, name@) {
                        let c = choose|a: int|
                            0 <= a < kept@.len() && (#[trigger] kept@[a])@ == name@;
                        let w = choose|a: int|
                            0 <= a < i && (#[trigger] names@[a])@ == kept@[c]@;
                        assert(names@[w]@ == names@[i as int]@);
                        assert(false);
                    }
                }
                kept.push(copied);
                proof {
                    assert(forall|a: int|
                        0 <= a < kept_before.len() ==> #[trigger] kept@[a] == kept_before[a]);
                    assert(kept@[kept_before.len() as int]@ == names@[i as int]@);
                    assert forall|x: Seq<u8>| #[trigger] has_name(kept@, x) implies exists|a: int|
                        0 <= a < i + 1 && (#[trigger] names@[a])@ == x by {
                        let c = choose|a: int|
                            0 <= a < kept@.len() && (#[trigger] kept@[a])@ == x;
                        if c < kept_before.len() {
                            assert(has_name(kept_before, x));
                        } else {
                            assert(names@[i as int]@ == x);
                        }
                    }
                    assert forall|a: int|
                        0 <= a < i + 1 && spec_is_frame_name(
                            (#[trigger] names@[a])@,
                        ) implies has_name(kept@, names@[a]@) by {
                        if a < i {
                            assert(has_name(kept_before, names@[a]@));
                            let c = choose|m: int|
                                0 <= m < kept_before.len() && (#[trigger] kept_before[m])@
                                    == names@[a]@;
                            assert(kept@[c]@ == names@[a]@);
                        } else {
                            assert(kept@[kept_before.len() as int]@ == names@[a]@);
                        }
                    }
                }
            } else {
                proof {
                    assert forall|a: int|
                        0 <= a < i + 1 && spec_is_frame_name(
                            (#[trigger] names@[a])@,
                        ) implies has_name(kept@, names@[a]@) by {}
                }
            }
            i = i + 1;
        }
        let frame_list = sort_names(kept);
        let layer_count = frame_list.len();
        proof {
            assert forall|a: int|
                0 <= a < frame_list@.len() implies zip_entries(archive).dom().contains(
                (#[trigger] frame_list@[a])@,
            ) && spec_is_frame_name(frame_list@[a]@) by {
                assert(has_name(frame_list@, frame_list@[a]@));
                let c = choose|m: int|
                    0 <= m < kept@.len() && (#[trigger] kept@[m])@ == frame_list@[a]@;
            }
            assert forall|n: Seq<u8>|
                zip_entries(archive).dom().contains(n) && spec_is_frame_name(n) implies has_name(
                frame_list@,
                n,
            ) by {
                let a = choose|a: int| 0 <= a < names@.len() && (#[trigger] names@[a])@ == n;
                assert(has_name(kept@, n));
            }
        }
        let metadata = PrintMetadata {
            file_data,
            used_material_milli: config.used_material_milli,
            print_time_ms: config.print_time_ms,
            layer_height_microns: config.layer_height_microns,
            layer_count,
            user_metadata,
        };
        Ok(Sl1 { config, archive, frame_list, metadata })
    }

    /// The layer at `index`: its mask name, raw PNG bytes, and exposure
    /// time by the fade rule.  Exact: a layer comes back precisely when
    /// the index is in range and its archive entry is readable, so the
    /// reader is restartable -- distinct indices in any order, repeated
    /// fetches alike.
    pub fn get_layer_data(&mut self, index: usize) -> (r: Option<Layer>)
        requires
            old(self).wf(),
        ensures
            final(self).wf(),
            final(self).config == old(self).config,
            final(self).frame_list == old(self).frame_list,
            final(self).metadata == old(self).metadata,
            zip_entries(final(self).archive) == zip_entries(old(self).archive),
            names_listable(final(self).archive) == names_listable(old(self).archive),
            forall|n: Seq<u8>| #[trigger]
                entry_readable(final(self).archive, n) == entry_readable(old(self).archive, n),
            r is Some <==> index < old(self).metadata.layer_count && entry_readable(
                old(self).archive,
                old(self).frame_list@[index as int]@,
            ),
            match r {
                Some(l) => {
                    &&& index < old(self).metadata.layer_count
                    &&& l.file_name@ == old(self).frame_list@[index as int]@
                    &&& l.data@ == zip_entries(old(self).archive)[old(
                        self,
                    ).frame_list@[index as int]@]
                    &&& l.exposure_time_ms == spec_exposure_time(
                        old(self).config.exp_time_ms,
                        old(self).config.exp_time_first_ms,
                        old(self).config.num_fade,
                        index,
                    )
                },
                None => true,
            },
    {
        if index >= self.frame_list.len() {
            return None;
        }
        let file_name = clone_bytes(&self.frame_list[index]);
        let data = match zip_read_entry(&mut self.archive, file_name.as_slice()) {
            Ok(d) => d,
            Err(_) => {
                return None;
            },
        };
        let exposure_time_ms = self.config.exposure_time(index);
        Some(Layer { file_name, data, exposure_time_ms })
    }

    /// How many layers the archive holds.
    pub fn get_layer_count(&self) -> (r: usize)
        ensures
            r == self.metadata.layer_count,
    {
        self.metadata.layer_count
    }

    /// The layer height in microns.
    pub fn get_layer_height(&self) -> (r: u32)
        ensures
            r == self.metadata.layer_height_microns,
    {
        self.metadata.layer_height_microns
    }

    /// The per-print metadata assembled at open time.
    pub fn get_metadata(&self) -> (r: &PrintMetadata)
        ensures
            r == &self.metadata,
    {
        &self.metadata
    }

    /// The requested thumbnail's bytes under the fixed serving name.
    /// Exact: it succeeds precisely when the size's entry is present
    /// and readable; anything else is a file error.
    pub fn get_thumbnail(&mut self, size: ThumbnailSize) -> (r: Result<FileData, OdysseyError>)
        requires
            old(self).wf(),
        ensures
            final(self).wf(),
            final(self).config == old(self).config,
            final(self).frame_list == old(self).frame_list,
            final(self).metadata == old(self).metadata,
            zip_entries(final(self).archive) == zip_entries(old(self).archive),
            names_listable(final(self).archive) == names_listable(old(self).archive),
            forall|n: Seq<u8>| #[trigger]
                entry_readable(final(self).archive, n) == entry_readable(old(self).archive, n),
            r is Ok <==> zip_entries(old(self).archive).dom().contains(
                if size is Small {
                    thumbnail_small_name()
                } else {
                    thumbnail_large_name()
                },
            ) && entry_readable(
                old(self).archive,
                if size is Small {
                    thumbnail_small_name()
                } else {
                    thumbnail_large_name()
                },
            ),
            match r {
                Ok(f) => {
                    &&& f.name@ == thumbnail_out_name()
                    &&& zip_entries(old(self).archive).dom().contains(
                        if size is Small {
                            thumbnail_small_name()
                        } else {
                            thumbnail_large_name()
                        },
                    )
                    &&& f.data@ == zip_entries(old(self).archive)[if size is Small {
                        thumbnail_small_name()
                    } else {
                        thumbnail_large_name()
                    }]
                },
                Err(e) => e.error_type == ErrorType::FileError,
            },
    {
        let entry_name = match size {
            ThumbnailSize::Small => thumbnail_small_name_bytes(),
            ThumbnailSize::Large => thumbnail_large_name_bytes(),
        };
        match zip_read_entry(&mut self.archive, entry_name.as_slice()) {
            Ok(data) => Ok(FileData { name: thumbnail_out_name_bytes(), data }),
            Err(_) => Err(OdysseyError::file_error(entry_name, 404)),
        }
    }
}

} // verus!