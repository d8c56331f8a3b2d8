//! From an archive to PNG streams.

use vstd::prelude::*;
use vstd::string::StringExecFns;
use vstd::utf8::*;
use crate::directory::{
    archive_directory, archive_fault, header_of, parse, records, ArchiveHeader, LumpRecord, Record,
};
use crate::emit::{alpha_table, encode_png, png_stream};
use crate::error::WadError;
use crate::image::{DecodedImage, Image};
use crate::name::{name_bytes, LumpName};
use crate::palette::{palette_fault, Palette, TRANSPARENT};
use crate::picture::{
    decode_picture, lemma_picture_fault_kinds, picture_colors, picture_fault, picture_of,
};
use crate::select::{as_ints, find_lump, index_of_name, select_lumps, selection};
use crate::upsample::{can_scale, scaled, upsample};
use crate::usage::ColorUsage;

verus! {

/// A converted picture: the name of the file to write, and the PNG stream
/// to write into it.
#[derive(Debug, PartialEq, Eq)]
pub struct PngFile {
    /// The lump's name followed by `.png`.
    pub name: String,
    /// The PNG stream.
    pub data: Vec<u8>,
}

/// A converted picture as plain values.
pub struct File {
    pub name: Seq<char>,
    pub data: Seq<u8>,
}

impl View for PngFile {
    type V = File;

    open spec fn view(&self) -> File {
        File { name: self.name@, data: self.data@ }
    }
}

/// The name of the palette lump.
pub open spec fn palette_name() -> Seq<char> {
    "PLAYPAL"@
}

/// The name of the file for the lump whose name field is `field`.
pub open spec fn file_name_of(field: Seq<u8>) -> Seq<char> {
    decode_utf8(name_bytes(field)) + ".png"@
}

/// The name of the file that the picture of the lump `name` is written to.
pub fn file_name(name: &LumpName) -> (r: String)
    ensures
        r@ == file_name_of(name.field()),
{
    let mut r: String = String::from_str(name.as_str());
    r.append(".png");
    r
}

/// The picture at `base`, scaled where `scale` is set.
pub open spec fn sprite_image(bytes: Seq<u8>, base: int, scale: bool) -> Image {
    if scale {
        scaled(picture_of(bytes, base))
    } else {
        picture_of(bytes, base)
    }
}

/// The PNG stream of `image`, where the encoder gives one. A picture
/// without a pixel has none.
pub open spec fn image_stream(image: Image, palette: Seq<u8>) -> Option<Seq<u8>> {
    if image.width <= 0 || image.height <= 0 {
        None
    } else {
        png_stream(
            image.width as u32,
            image.height as u32,
            palette,
            alpha_table(TRANSPARENT),
            image.pixels,
        )
    }
}

/// What the conversion of the picture at `base` gives: its PNG stream, or
/// the first fault on the way from decoding over scaling to encoding.
pub open spec fn sprite_outcome(bytes: Seq<u8>, base: int, scale: bool, palette: Seq<u8>) -> Result<
    Seq<u8>,
    WadError,
> {
    if picture_fault(bytes, base) is Some {
        Err(picture_fault(bytes, base)->Some_0)
    } else if scale && !can_scale(picture_of(bytes, base)) {
        Err(WadError::TooLarge)
    } else {
        match image_stream(sprite_image(bytes, base, scale), palette) {
            Some(stream) => Ok(stream),
            None => Err(WadError::Encode),
        }
    }
}

/// Converts the picture that `lump` holds: decodes it, scales it where
/// `scale` is set, and encodes it with `palette`. The palette indices of
/// the picture are added to `usage` wherever it could be decoded.
pub fn convert_sprite(
    bytes: &[u8],
    lump: &LumpRecord,
    scale: bool,
    palette: &Palette,
    usage: &mut ColorUsage,
) -> (r: Result<PngFile, WadError>)
    ensures
        match r {
            Ok(file) => sprite_outcome(bytes@, lump.offset as int, scale, palette@) == Ok::<
                Seq<u8>,
                WadError,
            >(file.data@) && file.name@ == file_name_of(lump.name.field()),
            Err(e) => sprite_outcome(bytes@, lump.offset as int, scale, palette@) == Err::<
                Seq<u8>,
                WadError,
            >(e),
        },
        final(usage)@ == if picture_fault(bytes@, lump.offset as int) is Some {
            old(usage)@
        } else {
            old(usage)@.union(picture_colors(bytes@, lump.offset as int))
        },
{
    let decoded: DecodedImage = decode_picture(bytes, lump, usage)?;
    let image: DecodedImage = if scale {
        upsample(&decoded)?
    } else {
        decoded
    };
    let data: Vec<u8> = encode_png(
        image.width(),
        image.height(),
        palette.as_bytes(),
        TRANSPARENT,
        image.pixels(),
    )?;
    Ok(PngFile { name: file_name(&lump.name), data })
}

/// Whether the run may stand: the transparent index must not occur among
/// the pixels that were decoded.
pub fn check_sentinel(usage: &ColorUsage) -> (r: Result<(), WadError>)
    ensures
        r == if usage@.contains(TRANSPARENT) {
            Err::<(), WadError>(WadError::TransparencyAssumptionViolated)
        } else {
            Ok::<(), WadError>(())
        },
{
    if usage.contains(TRANSPARENT) {
        Err(WadError::TransparencyAssumptionViolated)
    } else {
        Ok(())
    }
}

/// What stands in the way of converting any picture of the archive, if
/// anything: a fault of the header or the directory, no palette lump, or
/// a fault of the palette lump.
pub open spec fn setup_fault(bytes: Seq<u8>) -> Option<WadError> {
    let lumps = archive_directory(bytes);
    let at = index_of_name(lumps, palette_name(), 0);
    if archive_fault(bytes) is Some {
        archive_fault(bytes)
    } else if at >= lumps.len() {
        Some(WadError::MissingPalette)
    } else {
        palette_fault(bytes, lumps[at].offset, lumps[at].size)
    }
}

/// The colour table of the archive: the first 768 bytes of the first lump
/// named `PLAYPAL`.
pub open spec fn run_palette(bytes: Seq<u8>) -> Seq<u8> {
    let lumps = archive_directory(bytes);
    let at = index_of_name(lumps, palette_name(), 0);
    bytes.subrange(lumps[at].offset, lumps[at].offset + 768)
}

/// The lump that is converted as number `k` of the run.
pub open spec fn nth_lump(bytes: Seq<u8>, k: int) -> Record {
    archive_directory(bytes)[selection(archive_directory(bytes))[k]]
}

/// How many lumps the run converts.
pub open spec fn run_len(bytes: Seq<u8>) -> int {
    selection(archive_directory(bytes)).len() as int
}

/// What the conversion of lump number `k` of the run gives.
pub open spec fn nth_outcome(bytes: Seq<u8>, scale: bool, k: int) -> Result<Seq<u8>, WadError> {
    sprite_outcome(bytes, nth_lump(bytes, k).offset, scale, run_palette(bytes))
}

/// The number of the first lump at or after `from` that cannot be
/// converted; the length of the run where there is none.
pub open spec fn first_failure(bytes: Seq<u8>, scale: bool, from: int) -> int
    decreases run_len(bytes) - from,
{
    if from >= run_len(bytes) {
        run_len(bytes)
    } else if from >= 0 && nth_outcome(bytes, scale, from) is Err {
        from
    } else {
        first_failure(bytes, scale, from + 1)
    }
}

/// The palette indices that occur in the first `upto` pictures of the run.
pub open spec fn run_colors(bytes: Seq<u8>, upto: int) -> Set<u8>
    decreases upto,
{
    if upto <= 0 {
        Set::empty()
    } else {
        run_colors(bytes, upto - 1).union(picture_colors(bytes, nth_lump(bytes, upto - 1).offset))
    }
}

/// The files that a run over the archive gives: one for each selected
/// lump before the first that cannot be converted, in the order of the
/// selection.
pub open spec fn run_files(bytes: Seq<u8>, scale: bool) -> Seq<File> {
    if setup_fault(bytes) is Some {
        Seq::empty()
    } else {
        Seq::new(
            first_failure(bytes, scale, 0) as nat,
            |k: int|
                File {
                    name: file_name_of(nth_lump(bytes, k).name),
                    data: nth_outcome(bytes, scale, k)->Ok_0,
                },
        )
    }
}

/// How a run over the archive ends: with the first fault, or, where every
/// selected lump was converted, with the check of the transparent index.
pub open spec fn run_outcome(bytes: Seq<u8>, scale: bool) -> Result<(), WadError> {
    let failed = first_failure(bytes, scale, 0);
    if setup_fault(bytes) is Some {
        Err(setup_fault(bytes)->Some_0)
    } else if failed < run_len(bytes) {
        Err(nth_outcome(bytes, scale, failed)->Err_0)
    } else if run_colors(bytes, run_len(bytes)).contains(TRANSPARENT) {
        Err(WadError::TransparencyAssumptionViolated)
    } else {
        Ok(())
    }
}

/// How many pictures of the run are decoded: those before the first lump
/// that cannot be converted, and the picture of that lump too where it is
/// refused only after it was decoded.
pub open spec fn run_decoded(bytes: Seq<u8>, scale: bool) -> int {
    let failed = first_failure(bytes, scale, 0);
    if setup_fault(bytes) is Some {
        0
    } else if failed < run_len(bytes) && picture_fault(bytes, nth_lump(bytes, failed).offset)
        is None {
        failed + 1
    } else {
        failed
    }
}

/// What a run needs before its first picture.
#[derive(Debug)]
pub struct Plan {
    /// The header of the archive.
    pub header: ArchiveHeader,
    /// The directory.
    pub lumps: Vec<LumpRecord>,
    /// The colour table.
    pub palette: Palette,
    /// The indices of the lumps to convert, in the order to convert them.
    pub chosen: Vec<usize>,
}

/// Reads the directory of the archive, loads its palette and selects the
/// lumps to convert.
pub fn prepare(bytes: &[u8]) -> (r: Result<Plan, WadError>)
    ensures
        match r {
            Ok(plan) => {
                &&& setup_fault(bytes@) is None
                &&& plan.header == header_of(bytes@)
                &&& records(plan.lumps@) == archive_directory(bytes@)
                &&& plan.palette@ == run_palette(bytes@)
                &&& as_ints(plan.chosen@) == selection(archive_directory(bytes@))
                &&& forall|k: int|
                    0 <= k < plan.chosen@.len() ==> plan.chosen@[k] < plan.lumps@.len()
            },
            Err(e) => setup_fault(bytes@) == Some(e),
        },
{
    let (header, lumps) = parse(bytes)?;
    let at: usize = match find_lump(lumps.as_slice(), "PLAYPAL") {
        Some(at) => at,
        None => {
            return Err(WadError::MissingPalette);
        },
    };
    let palette: Palette = Palette::load(bytes, &lumps[at])?;
    let chosen: Vec<usize> = select_lumps(lumps.as_slice());
    Ok(Plan { header, lumps, palette, chosen })
}

/// What a run over an archive gave.
#[derive(Debug)]
pub struct Conversion {
    /// The files to write, in the order of the selection.
    pub files: Vec<PngFile>,
    /// The palette indices that occur in the pictures that were decoded.
    pub usage: ColorUsage,
    /// How the run ended. The files stand either way: a run that ends
    /// with a fault has converted every lump before the fault.
    pub outcome: Result<(), WadError>,
}

/// The files as plain values.
pub open spec fn files_of(files: Seq<PngFile>) -> Seq<File> {
    files.map_values(|f: PngFile| f@)
}

/// Converts every selected picture of the archive. The run stops at the
/// first fault. Where there is none, it ends with the check that the
/// transparent index occurs in no picture: the check is made once, after
/// the last picture.
pub fn convert_all(bytes: &[u8], scale: bool) -> (r: Conversion)
    ensures
        files_of(r.files@) == run_files(bytes@, scale),
        r.usage@ == run_colors(bytes@, run_decoded(bytes@, scale)),
        r.outcome == run_outcome(bytes@, scale),
{
    let mut files: Vec<PngFile> = Vec::new();
    let mut usage: ColorUsage = ColorUsage::new();
    let plan: Plan = match prepare(bytes) {
        Ok(plan) => plan,
        Err(e) => {
            return Conversion { files, usage, outcome: Err(e) };
        },
    };
    let ghost lumps = archive_directory(bytes@);
    let mut k: usize = 0;
    while k < plan.chosen.len()
        invariant
            0 <= k <= plan.chosen@.len(),
            setup_fault(bytes@) is None,
            lumps == archive_directory(bytes@),
            records(plan.lumps@) == lumps,
            plan.palette@ == run_palette(bytes@),
            as_ints(plan.chosen@) == selection(lumps),
            forall|j: int| 0 <= j < plan.chosen@.len() ==> plan.chosen@[j] < plan.lumps@.len(),
            first_failure(bytes@, scale, 0) == first_failure(bytes@, scale, k as int),
            usage@ == run_colors(bytes@, k as int),
            files@.len() == k,
            forall|j: int|
                0 <= j < k ==> (#[trigger] files@[j])@ == (File {
                    name: file_name_of(nth_lump(bytes@, j).name),
                    data: nth_outcome(bytes@, scale, j)->Ok_0,
                }),
        decreases plan.chosen@.len() - k,
    {
        let index: usize = plan.chosen[k];
        match convert_sprite(bytes, &plan.lumps[index], scale, &plan.palette, &mut usage) {
            Ok(file) => {
                files.push(file);
            },
            Err(e) => {
                return Conversion { files, usage, outcome: Err(e) };
            },
        }
        k = k + 1;
    }
    let outcome: Result<(), WadError> = check_sentinel(&usage);
    Conversion { files, usage, outcome }
}

/// `first_failure` is at or after `from`, every lump of the run between
/// the two can be converted, and the lump at it cannot.
pub proof fn lemma_first_failure(bytes: Seq<u8>, scale: bool, from: int)
    requires
        0 <= from <= run_len(bytes),
    ensures
        from <= first_failure(bytes, scale, from) <= run_len(bytes),
        forall|k: int|
            from <= k < first_failure(bytes, scale, from) ==> nth_outcome(bytes, scale, k) is Ok,
        first_failure(bytes, scale, from) < run_len(bytes) ==> nth_outcome(
            bytes,
            scale,
            first_failure(bytes, scale, from),
        ) is Err,
    decreases run_len(bytes) - from,
{
    if from < run_len(bytes) && nth_outcome(bytes, scale, from) is Ok {
        lemma_first_failure(bytes, scale, from + 1);
    }
}

/// A palette index occurs in the first `upto` pictures of the run exactly
/// where it occurs in one of them.
pub proof fn lemma_run_colors(bytes: Seq<u8>, upto: int, c: u8)
    ensures
        run_colors(bytes, upto).contains(c) <==> exists|k: int|
            0 <= k < upto && picture_colors(bytes, #[trigger] nth_lump(bytes, k).offset).contains(
                c,
            ),
    decreases upto,
{
    if upto > 0 {
        lemma_run_colors(bytes, upto - 1, c);
    }
}

/// A run that ends on the transparent index has converted every selected
/// lump: the index is looked for after the last picture, not between
/// pictures.
pub proof fn lemma_sentinel_checked_last(bytes: Seq<u8>, scale: bool)
    requires
        run_outcome(bytes, scale) == Err::<(), WadError>(WadError::TransparencyAssumptionViolated),
    ensures
        run_files(bytes, scale).len() == run_len(bytes),
        run_colors(bytes, run_len(bytes)).contains(TRANSPARENT),
{
    lemma_first_failure(bytes, scale, 0);
    let failed = first_failure(bytes, scale, 0);
    if failed < run_len(bytes) {
        lemma_picture_fault_kinds(bytes, nth_lump(bytes, failed).offset);
    }
}

} // verus!
