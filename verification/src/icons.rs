//! Icon resolution: classify candidate icon sources by format, extract their
//! intrinsic dimensions and density class, deduplicate by
//! `(width, height, high_density)`, and produce one themed destination PNG per
//! unique key.
//!
//! The resolution itself is a pure transform from candidate paths and bytes to
//! a list of planned destination files; reading the candidates and writing the
//! outputs is the caller's business. Native PNG sources are handled in a first
//! pass and copied verbatim; multi-image containers and generic rasters fill
//! the remaining keys in a second pass.

use vstd::prelude::*;
use crate::IconKey;
use crate::numtext::u32_to_dec;
use crate::numtext::dec_of;
use crate::paths::extension_of;
use crate::paths::extension;
use crate::paths::is_high_density_name;
use crate::paths::is_high_density;
use image::ImageDecoder;
use image::ImageEncoder;

verus! {

/// The closed set of source formats the resolver distinguishes.
#[derive(Clone, Copy, Debug, PartialEq, Eq, Structural)]
pub enum IconFormat {
    NativePng,
    MultiImageContainer,
    GenericRaster,
}

/// Format of a candidate, decided by its literal (case-sensitive) extension:
/// `png` is native, `icns` is a multi-image container, anything else is a
/// generic raster.
pub open spec fn classify_path(p: Seq<char>) -> IconFormat {
    if extension_of(p) == Some("png"@) {
        IconFormat::NativePng
    } else if extension_of(p) == Some("icns"@) {
        IconFormat::MultiImageContainer
    } else {
        IconFormat::GenericRaster
    }
}

/// Classifies a candidate path by its extension.
pub fn classify(p: &str) -> (f: IconFormat)
    ensures
        f == classify_path(p@),
{
    proof {
        reveal_strlit("png");
        reveal_strlit("icns");
    }
    match extension(p) {
        None => IconFormat::GenericRaster,
        Some(e) => {
            let png = String::from_str("png");
            let icns_ext = String::from_str("icns");
            if e.eq(&png) {
                IconFormat::NativePng
            } else if e.eq(&icns_ext) {
                IconFormat::MultiImageContainer
            } else {
                IconFormat::GenericRaster
            }
        },
    }
}

/// The themed destination for `key`:
/// `{data_dir}/usr/share/icons/hicolor/{W}x{H}[@2x]/apps/{bin}.png`, with
/// `@2x` present exactly when the key is high-density.
pub open spec fn icon_dest_path_of(data_dir: Seq<char>, key: IconKey, bin: Seq<char>) -> Seq<
    char,
> {
    data_dir + "/usr/share/icons/hicolor/"@ + dec_of(key.width as int) + "x"@ + dec_of(
        key.height as int,
    ) + (if key.high_density {
        "@2x"@
    } else {
        Seq::<char>::empty()
    }) + "/apps/"@ + bin + ".png"@
}

/// Builds the themed destination path for `key`.
pub fn icon_dest_path(data_dir: &str, key: IconKey, bin: &str) -> (r: String)
    ensures
        r@ == icon_dest_path_of(data_dir@, key, bin@),
{
    let mut r = String::from_str(data_dir);
    r.append("/usr/share/icons/hicolor/");
    let w = u32_to_dec(key.width);
    r.append(w.as_str());
    r.append("x");
    let h = u32_to_dec(key.height);
    r.append(h.as_str());
    if key.high_density {
        r.append("@2x");
    }
    r.append("/apps/");
    r.append(bin);
    r.append(".png");
    proof {
        assert(r@ =~= icon_dest_path_of(data_dir@, key, bin@));
    }
    r
}

/// The `(width, height)` recorded in the header of a PNG byte stream, or
/// `None` when the bytes do not begin with a well-formed PNG header.
pub uninterp spec fn png_dims_of(b: Seq<u8>) -> Option<(u32, u32)>;

/// The `(screen_width, screen_height, pixel_density)` descriptors of the
/// icons embedded in an Apple icon-family byte stream, in the container's
/// enumeration order, or `None` when the bytes are not a well-formed
/// container.
pub uninterp spec fn icns_icons_of(b: Seq<u8>) -> Option<Seq<(u32, u32, u32)>>;

/// The standalone PNG encoding of the `i`-th embedded icon of an Apple
/// icon-family byte stream, or `None` when that icon cannot be extracted.
pub uninterp spec fn icns_png_of(b: Seq<u8>, i: int) -> Option<Seq<u8>>;

/// The `(width, height, png_bytes)` obtained by fully decoding a raster image
/// byte stream and re-encoding its pixels as a standalone PNG, or `None` when
/// the bytes cannot be decoded (or the pixel layout cannot be PNG-encoded).
pub uninterp spec fn raster_png_of(b: Seq<u8>) -> Option<(u32, u32, Seq<u8>)>;

/// Relies on `image::codecs::png::PngDecoder::new` and
/// `image::ImageDecoder::dimensions`: reading the PNG header reports the
/// image's dimensions without decoding pixel data, and is determined by the
/// bytes alone.
#[verifier::external_body]
fn png_header_dimensions(data: &Vec<u8>) -> (r: Option<(u32, u32)>)
    ensures
        r == png_dims_of(data@),
{
    match image::codecs::png::PngDecoder::new(std::io::Cursor::new(data.as_slice())) {
        Ok(d) => Some(d.dimensions()),
        Err(_) => None,
    }
}

/// Relies on `icns::IconFamily::read`, `IconFamily::available_icons` and
/// `IconType::{screen_width, screen_height, pixel_density}`: the available
/// icon descriptors are determined by the container bytes alone.
#[verifier::external_body]
fn icns_available_icons(data: &Vec<u8>) -> (r: Option<Vec<(u32, u32, u32)>>)
    ensures
        match r {
            Some(v) => icns_icons_of(data@) == Some(v@),
            None => icns_icons_of(data@) is None,
        },
{
    let family = match icns::IconFamily::read(std::io::Cursor::new(data.as_slice())) {
        Ok(f) => f,
        Err(_) => return None,
    };
    let mut v: Vec<(u32, u32, u32)> = Vec::new();
    for t in family.available_icons() {
        v.push((t.screen_width(), t.screen_height(), t.pixel_density()));
    }
    Some(v)
}

/// Relies on `icns::IconFamily::read`, `IconFamily::{available_icons,
/// get_icon_with_type}` and `icns::Image::write_png`: extracting the `i`-th
/// embedded icon and encoding it as a PNG is determined by the container
/// bytes and the index alone.
#[verifier::external_body]
fn icns_extract_png(data: &Vec<u8>, i: usize) -> (r: Option<Vec<u8>>)
    requires
        icns_icons_of(data@) matches Some(icons) && i < icons.len(),
    ensures
        match r {
            Some(v) => icns_png_of(data@, i as int) == Some(v@),
            None => icns_png_of(data@, i as int) is None,
        },
{
    let family = match icns::IconFamily::read(std::io::Cursor::new(data.as_slice())) {
        Ok(f) => f,
        Err(_) => return None,
    };
    let types = family.available_icons();
    let icon = match family.get_icon_with_type(types[i]) {
        Ok(im) => im,
        Err(_) => return None,
    };
    let mut out: Vec<u8> = Vec::new();
    match icon.write_png(&mut out) {
        Ok(()) => Some(out),
        Err(_) => None,
    }
}

/// Relies on `image::load_from_memory`,
/// `DynamicImage::{width, height, color, as_bytes}` and
/// `image::codecs::png::PngEncoder::write_image`: decoding a raster image and
/// re-encoding its raw pixels as a PNG is determined by the input bytes alone.
#[verifier::external_body]
fn raster_to_png(data: &Vec<u8>) -> (r: Option<(u32, u32, Vec<u8>)>)
    ensures
        match r {
            Some(t) => raster_png_of(data@) == Some((t.0, t.1, t.2@)),
            None => raster_png_of(data@) is None,
        },
{
    let img = match image::load_from_memory(data.as_slice()) {
        Ok(im) => im,
        Err(_) => return None,
    };
    let (w, h) = (img.width(), img.height());
    let mut out: Vec<u8> = Vec::new();
    let enc = image::codecs::png::PngEncoder::new(&mut out);
    match enc.write_image(img.as_bytes(), w, h, img.color().into()) {
        Ok(()) => Some((w, h, out)),
        Err(_) => None,
    }
}

/// A candidate icon source: its path and its file contents.
pub struct IconCandidate {
    pub path: String,
    pub data: Vec<u8>,
}

/// A planned destination file: the key it covers, the destination path, and
/// the PNG bytes to write there.
pub struct IconOutput {
    pub key: IconKey,
    pub dest: String,
    pub data: Vec<u8>,
}

/// Why a resolution pass aborted; each variant carries the offending source
/// path (or the upstream message it propagates).
#[derive(Debug)]
pub enum IconError {
    Upstream(String),
    PngDecode(String),
    ContainerDecode(String),
    ContainerExtract(String),
    RasterDecode(String),
}

/// Mathematical image of a planned destination file.
pub struct OutView {
    pub key: IconKey,
    pub dest: Seq<char>,
    pub data: Seq<u8>,
}

/// Mathematical image of a resolution error.
pub enum ErrView {
    Upstream(Seq<char>),
    PngDecode(Seq<char>),
    ContainerDecode(Seq<char>),
    ContainerExtract(Seq<char>),
    RasterDecode(Seq<char>),
}

/// Outcome of (part of) a resolution pass: the planned files so far, or the
/// error that aborts the whole pass.
pub enum ResolveRes {
    Done(Seq<OutView>),
    Fail(ErrView),
}

pub open spec fn out_view(o: IconOutput) -> OutView {
    OutView { key: o.key, dest: o.dest@, data: o.data@ }
}

pub open spec fn outs_view(v: Seq<IconOutput>) -> Seq<OutView> {
    v.map_values(|o: IconOutput| out_view(o))
}

pub open spec fn err_view(e: IconError) -> ErrView {
    match e {
        IconError::Upstream(m) => ErrView::Upstream(m@),
        IconError::PngDecode(p) => ErrView::PngDecode(p@),
        IconError::ContainerDecode(p) => ErrView::ContainerDecode(p@),
        IconError::ContainerExtract(p) => ErrView::ContainerExtract(p@),
        IconError::RasterDecode(p) => ErrView::RasterDecode(p@),
    }
}

pub open spec fn cand_view(c: Result<IconCandidate, String>) -> Result<
    (Seq<char>, Seq<u8>),
    Seq<char>,
> {
    match c {
        Ok(ic) => Ok((ic.path@, ic.data@)),
        Err(m) => Err(m@),
    }
}

pub open spec fn cands_view(v: Seq<Result<IconCandidate, String>>) -> Seq<
    Result<(Seq<char>, Seq<u8>), Seq<char>>,
> {
    v.map_values(|c: Result<IconCandidate, String>| cand_view(c))
}

/// Whether some planned file already covers `k`.
pub open spec fn has_key(outs: Seq<OutView>, k: IconKey) -> bool {
    exists|i: int| 0 <= i < outs.len() && outs[i].key == k
}

/// The key of a native PNG source: header dimensions plus the filename
/// density convention.
pub open spec fn png_key(path: Seq<char>, w: u32, h: u32) -> IconKey {
    IconKey { width: w, height: h, high_density: is_high_density_name(path) }
}

/// The key of one embedded container icon: screen dimensions, high-density
/// exactly when its pixel density exceeds one.
pub open spec fn container_key(item: (u32, u32, u32)) -> IconKey {
    IconKey { width: item.0, height: item.1, high_density: item.2 > 1 }
}

/// One first-pass step: a native PNG source either fails to decode, is
/// skipped because its key is covered, or plans a verbatim copy of its bytes.
pub open spec fn png_step(
    outs: Seq<OutView>,
    path: Seq<char>,
    data: Seq<u8>,
    dir: Seq<char>,
    bin: Seq<char>,
) -> ResolveRes {
    match png_dims_of(data) {
        None => ResolveRes::Fail(ErrView::PngDecode(path)),
        Some(dims) => {
            let k = png_key(path, dims.0, dims.1);
            if has_key(outs, k) {
                ResolveRes::Done(outs)
            } else {
                ResolveRes::Done(
                    outs.push(OutView { key: k, dest: icon_dest_path_of(dir, k, bin), data }),
                )
            }
        },
    }
}

/// Second-pass steps over the embedded icons of one container, from index `i`
/// on: each new key plans the extracted standalone PNG; extraction failure
/// aborts.
pub open spec fn container_steps(
    outs: Seq<OutView>,
    path: Seq<char>,
    data: Seq<u8>,
    icons: Seq<(u32, u32, u32)>,
    i: int,
    dir: Seq<char>,
    bin: Seq<char>,
) -> ResolveRes
    decreases icons.len() - i,
{
    if i < 0 || i >= icons.len() {
        ResolveRes::Done(outs)
    } else {
        let k = container_key(icons[i]);
        if has_key(outs, k) {
            container_steps(outs, path, data, icons, i + 1, dir, bin)
        } else {
            match icns_png_of(data, i) {
                None => ResolveRes::Fail(ErrView::ContainerExtract(path)),
                Some(png) => container_steps(
                    outs.push(OutView { key: k, dest: icon_dest_path_of(dir, k, bin), data: png }),
                    path,
                    data,
                    icons,
                    i + 1,
                    dir,
                    bin,
                ),
            }
        }
    }
}

/// One second-pass step for a multi-image container source.
pub open spec fn container_step(
    outs: Seq<OutView>,
    path: Seq<char>,
    data: Seq<u8>,
    dir: Seq<char>,
    bin: Seq<char>,
) -> ResolveRes {
    match icns_icons_of(data) {
        None => ResolveRes::Fail(ErrView::ContainerDecode(path)),
        Some(icons) => container_steps(outs, path, data, icons, 0, dir, bin),
    }
}

/// One second-pass step for a generic raster source: decode, re-encode as
/// PNG, and plan it if its key is new.
pub open spec fn raster_step(
    outs: Seq<OutView>,
    path: Seq<char>,
    data: Seq<u8>,
    dir: Seq<char>,
    bin: Seq<char>,
) -> ResolveRes {
    match raster_png_of(data) {
        None => ResolveRes::Fail(ErrView::RasterDecode(path)),
        Some(t) => {
            let k = png_key(path, t.0, t.1);
            if has_key(outs, k) {
                ResolveRes::Done(outs)
            } else {
                ResolveRes::Done(
                    outs.push(OutView { key: k, dest: icon_dest_path_of(dir, k, bin), data: t.2 }),
                )
            }
        },
    }
}

/// What one candidate contributes to the pass at hand: upstream errors always
/// abort; PNG sources act only in the first pass, the other formats only in
/// the second.
pub open spec fn cand_step(
    pass2: bool,
    outs: Seq<OutView>,
    c: Result<(Seq<char>, Seq<u8>), Seq<char>>,
    dir: Seq<char>,
    bin: Seq<char>,
) -> ResolveRes {
    match c {
        Err(m) => ResolveRes::Fail(ErrView::Upstream(m)),
        Ok(pd) => match classify_path(pd.0) {
            IconFormat::NativePng => if !pass2 {
                png_step(outs, pd.0, pd.1, dir, bin)
            } else {
                ResolveRes::Done(outs)
            },
            IconFormat::MultiImageContainer => if pass2 {
                container_step(outs, pd.0, pd.1, dir, bin)
            } else {
                ResolveRes::Done(outs)
            },
            IconFormat::GenericRaster => if pass2 {
                raster_step(outs, pd.0, pd.1, dir, bin)
            } else {
                ResolveRes::Done(outs)
            },
        },
    }
}

/// Runs one pass over the candidates from index `i` on.
pub open spec fn run_pass(
    pass2: bool,
    cands: Seq<Result<(Seq<char>, Seq<u8>), Seq<char>>>,
    i: int,
    outs: Seq<OutView>,
    dir: Seq<char>,
    bin: Seq<char>,
) -> ResolveRes
    decreases cands.len() - i,
{
    if i < 0 || i >= cands.len() {
        ResolveRes::Done(outs)
    } else {
        match cand_step(pass2, outs, cands[i], dir, bin) {
            ResolveRes::Fail(e) => ResolveRes::Fail(e),
            ResolveRes::Done(o2) => run_pass(pass2, cands, i + 1, o2, dir, bin),
        }
    }
}

/// The whole resolution: the PNG-native pass, then the fallback pass.
pub open spec fn resolve_icons_spec(
    cands: Seq<Result<(Seq<char>, Seq<u8>), Seq<char>>>,
    dir: Seq<char>,
    bin: Seq<char>,
) -> ResolveRes {
    match run_pass(false, cands, 0, Seq::empty(), dir, bin) {
        ResolveRes::Fail(e) => ResolveRes::Fail(e),
        ResolveRes::Done(o1) => run_pass(true, cands, 0, o1, dir, bin),
    }
}

/// Copies a byte buffer.
fn copy_bytes(v: &Vec<u8>) -> (r: Vec<u8>)
    ensures
        r@ == v@,
{
    let mut r: Vec<u8> = Vec::new();
    let mut i: usize = 0;
    while i < v.len()
        invariant
            i <= v@.len(),
            r@ == v@.take(i as int),
        decreases v@.len() - i,
    {
        r.push(v[i]);
        proof {
            assert(v@.take(i + 1 as int) =~= v@.take(i as int).push(v@[i as int]));
        }
        i = i + 1;
    }
    proof {
        assert(v@.take(v@.len() as int) =~= v@);
    }
    r
}

/// Whether some planned file already covers `k`.
fn contains_key(outs: &Vec<IconOutput>, k: IconKey) -> (r: bool)
    ensures
        r == has_key(outs_view(outs@), k),
{
    let mut i: usize = 0;
    while i < outs.len()
        invariant
            i <= outs@.len(),
            forall|j: int| 0 <= j < i ==> outs_view(outs@)[j].key != k,
        decreases outs@.len() - i,
    {
        if outs[i].key == k {
            proof {
                assert(outs_view(outs@)[i as int].key == k);
            }
            return true;
        }
        i = i + 1;
    }
    false
}

/// First-pass handling of one native PNG candidate.
fn process_png(
    outs: &mut Vec<IconOutput>,
    path: &str,
    data: &Vec<u8>,
    dir: &str,
    bin: &str,
) -> (r: Result<(), IconError>)
    ensures
        match r {
            Ok(()) => png_step(outs_view(old(outs)@), path@, data@, dir@, bin@)
                == ResolveRes::Done(outs_view(final(outs)@)),
            Err(e) => png_step(outs_view(old(outs)@), path@, data@, dir@, bin@)
                == ResolveRes::Fail(err_view(e)),
        },
{
    match png_header_dimensions(data) {
        None => Err(IconError::PngDecode(String::from_str(path))),
        Some(dims) => {
            let k = IconKey { width: dims.0, height: dims.1, high_density: is_high_density(path) };
            if contains_key(outs, k) {
                Ok(())
            } else {
                let out = IconOutput {
                    key: k,
                    dest: icon_dest_path(dir, k, bin),
                    data: copy_bytes(data),
                };
                let ghost prev = outs_view(outs@);
                let ghost ov = out_view(out);
                outs.push(out);
                proof {
                    assert(outs_view(outs@) =~= prev.push(ov));
                }
                Ok(())
            }
        },
    }
}

/// Second-pass handling of one multi-image container candidate.
fn process_container(
    outs: &mut Vec<IconOutput>,
    path: &str,
    data: &Vec<u8>,
    dir: &str,
    bin: &str,
) -> (r: Result<(), IconError>)
    ensures
        match r {
            Ok(()) => container_step(outs_view(old(outs)@), path@, data@, dir@, bin@)
                == ResolveRes::Done(outs_view(final(outs)@)),
            Err(e) => container_step(outs_view(old(outs)@), path@, data@, dir@, bin@)
                == ResolveRes::Fail(err_view(e)),
        },
{
    let icons = match icns_available_icons(data) {
        None => {
            return Err(IconError::ContainerDecode(String::from_str(path)));
        },
        Some(v) => v,
    };
    let mut i: usize = 0;
    while i < icons.len()
        invariant
            i <= icons@.len(),
            icns_icons_of(data@) == Some(icons@),
            container_steps(outs_view(old(outs)@), path@, data@, icons@, 0, dir@, bin@)
                == container_steps(outs_view(outs@), path@, data@, icons@, i as int, dir@, bin@),
        decreases icons@.len() - i,
    {
        let item = icons[i];
        let k = IconKey { width: item.0, height: item.1, high_density: item.2 > 1 };
        if !contains_key(outs, k) {
            let png = match icns_extract_png(data, i) {
                None => {
                    return Err(IconError::ContainerExtract(String::from_str(path)));
                },
                Some(p) => p,
            };
            let out = IconOutput { key: k, dest: icon_dest_path(dir, k, bin), data: png };
            let ghost prev = outs_view(outs@);
            let ghost ov = out_view(out);
            outs.push(out);
            proof {
                assert(outs_view(outs@) =~= prev.push(ov));
            }
        }
        i = i + 1;
    }
    Ok(())
}

/// Second-pass handling of one generic raster candidate.
fn process_raster(
    outs: &mut Vec<IconOutput>,
    path: &str,
    data: &Vec<u8>,
    dir: &str,
    bin: &str,
) -> (r: Result<(), IconError>)
    ensures
        match r {
            Ok(()) => raster_step(outs_view(old(outs)@), path@, data@, dir@, bin@)
                == ResolveRes::Done(outs_view(final(outs)@)),
            Err(e) => raster_step(outs_view(old(outs)@), path@, data@, dir@, bin@)
                == ResolveRes::Fail(err_view(e)),
        },
{
    match raster_to_png(data) {
        None => Err(IconError::RasterDecode(String::from_str(path))),
        Some(t) => {
            let k = IconKey { width: t.0, height: t.1, high_density: is_high_density(path) };
            if contains_key(outs, k) {
                Ok(())
            } else {
                let out = IconOutput { key: k, dest: icon_dest_path(dir, k, bin), data: t.2 };
                let ghost prev = outs_view(outs@);
                let ghost ov = out_view(out);
                outs.push(out);
                proof {
                    assert(outs_view(outs@) =~= prev.push(ov));
                }
                Ok(())
            }
        },
    }
}

/// Resolves the candidate icon sources into a deduplicated list of planned
/// destination files under `data_dir`, named after `binary_name`.
///
/// Native PNG sources are taken first (their bytes planned verbatim); the
/// remaining candidates fill only keys not yet covered. An upstream error
/// among the candidates, or any decode or extraction failure, aborts the
/// whole resolution. The result is exactly the mathematical two-pass
/// resolution of the candidates.
pub fn generate_icon_files(
    candidates: &Vec<Result<IconCandidate, String>>,
    data_dir: &str,
    binary_name: &str,
) -> (r: Result<Vec<IconOutput>, IconError>)
    ensures
        match resolve_icons_spec(cands_view(candidates@), data_dir@, binary_name@) {
            ResolveRes::Done(outs) => r matches Ok(v) && outs_view(v@) == outs,
            ResolveRes::Fail(e) => r matches Err(er) && err_view(er) == e,
        },
{
    let ghost cv = cands_view(candidates@);
    let mut outs: Vec<IconOutput> = Vec::new();
    proof {
        assert(outs_view(outs@) =~= Seq::<OutView>::empty());
    }
    let mut i: usize = 0;
    while i < candidates.len()
        invariant
            i <= candidates@.len(),
            cv == cands_view(candidates@),
            run_pass(false, cv, 0, Seq::empty(), data_dir@, binary_name@) == run_pass(
                false,
                cv,
                i as int,
                outs_view(outs@),
                data_dir@,
                binary_name@,
            ),
        decreases candidates@.len() - i,
    {
        proof {
            assert(cv[i as int] == cand_view(candidates@[i as int]));
        }
        match &candidates[i] {
            Err(m) => {
                return Err(IconError::Upstream(m.clone()));
            },
            Ok(c) => {
                let fmt = classify(c.path.as_str());
                if fmt == IconFormat::NativePng {
                    match process_png(&mut outs, c.path.as_str(), &c.data, data_dir, binary_name) {
                        Ok(()) => {},
                        Err(e) => {
                            return Err(e);
                        },
                    }
                }
            },
        }
        i = i + 1;
    }
    let ghost o1 = outs_view(outs@);
    proof {
        assert(run_pass(false, cv, 0, Seq::empty(), data_dir@, binary_name@)
            == ResolveRes::Done(o1));
    }
    let mut i2: usize = 0;
    while i2 < candidates.len()
        invariant
            i2 <= candidates@.len(),
            cv == cands_view(candidates@),
            run_pass(false, cv, 0, Seq::empty(), data_dir@, binary_name@) == ResolveRes::Done(o1),
            run_pass(true, cv, 0, o1, data_dir@, binary_name@) == run_pass(
                true,
                cv,
                i2 as int,
                outs_view(outs@),
                data_dir@,
                binary_name@,
            ),
        decreases candidates@.len() - i2,
    {
        proof {
            assert(cv[i2 as int] == cand_view(candidates@[i2 as int]));
        }
        match &candidates[i2] {
            Err(m) => {
                return Err(IconError::Upstream(m.clone()));
            },
            Ok(c) => {
                let fmt = classify(c.path.as_str());
                let step = match fmt {
                    IconFormat::NativePng => Ok(()),
                    IconFormat::MultiImageContainer => process_container(
                        &mut outs,
                        c.path.as_str(),
                        &c.data,
                        data_dir,
                        binary_name,
                    ),
                    IconFormat::GenericRaster => process_raster(
                        &mut outs,
                        c.path.as_str(),
                        &c.data,
                        data_dir,
                        binary_name,
                    ),
                };
                match step {
                    Ok(()) => {},
                    Err(e) => {
                        return Err(e);
                    },
                }
            },
        }
        i2 = i2 + 1;
    }
    Ok(outs)
}

/// No two planned files cover the same key.
pub open spec fn distinct_keys(outs: Seq<OutView>) -> bool {
    forall|i: int, j: int| 0 <= i < j < outs.len() ==> outs[i].key != outs[j].key
}

/// `post` extends `pre` by planned files whose keys are fresh at the moment
/// they are planned and whose destinations follow the themed template.
pub open spec fn extends_fresh(
    pre: Seq<OutView>,
    post: Seq<OutView>,
    dir: Seq<char>,
    bin: Seq<char>,
) -> bool {
    &&& pre.is_prefix_of(post)
    &&& forall|j: int| pre.len() <= j < post.len() ==> !has_key(#[trigger] post.take(j), post[j].key)
    &&& forall|j: int|
        pre.len() <= j < post.len() ==> (#[trigger] post[j]).dest == icon_dest_path_of(
            dir,
            post[j].key,
            bin,
        )
}

proof fn lemma_has_key_push(outs: Seq<OutView>, x: OutView, k: IconKey)
    ensures
        has_key(outs.push(x), k) <==> (has_key(outs, k) || x.key == k),
{
    if has_key(outs, k) {
        let i = choose|i: int| 0 <= i < outs.len() && outs[i].key == k;
        assert(outs.push(x)[i].key == k);
    }
    if x.key == k {
        assert(outs.push(x)[outs.len() as int].key == k);
    }
    if has_key(outs.push(x), k) {
        let i = choose|i: int| 0 <= i < outs.push(x).len() && outs.push(x)[i].key == k;
        if i < outs.len() {
            assert(outs[i].key == k);
        }
    }
}

proof fn lemma_extends_push(outs: Seq<OutView>, x: OutView, dir: Seq<char>, bin: Seq<char>)
    requires
        !has_key(outs, x.key),
        x.dest == icon_dest_path_of(dir, x.key, bin),
    ensures
        extends_fresh(outs, outs.push(x), dir, bin),
{
    assert(outs =~= outs.push(x).subrange(0, outs.len() as int));
    assert(outs.push(x).take(outs.len() as int) =~= outs);
}

proof fn lemma_extends_refl(outs: Seq<OutView>, dir: Seq<char>, bin: Seq<char>)
    ensures
        extends_fresh(outs, outs, dir, bin),
{
    assert(outs =~= outs.subrange(0, outs.len() as int));
}

proof fn lemma_extends_trans(
    a: Seq<OutView>,
    b: Seq<OutView>,
    c: Seq<OutView>,
    dir: Seq<char>,
    bin: Seq<char>,
)
    requires
        extends_fresh(a, b, dir, bin),
        extends_fresh(b, c, dir, bin),
    ensures
        extends_fresh(a, c, dir, bin),
{
    assert(a =~= c.subrange(0, a.len() as int));
    assert forall|j: int| a.len() <= j < c.len() implies !has_key(#[trigger] c.take(j), c[j].key) by {
        if j < b.len() {
            assert(c.take(j) =~= b.take(j));
            assert(c[j] == b.subrange(0, b.len() as int)[j]);
        }
    }
    assert forall|j: int|
        a.len() <= j < c.len() implies (#[trigger] c[j]).dest == icon_dest_path_of(
        dir,
        c[j].key,
        bin,
    ) by {
        if j < b.len() {
            assert(c[j] == b.subrange(0, b.len() as int)[j]);
        }
    }
}

proof fn lemma_has_key_mono(pre: Seq<OutView>, post: Seq<OutView>, k: IconKey)
    requires
        pre.is_prefix_of(post),
        has_key(pre, k),
    ensures
        has_key(post, k),
{
    let i = choose|i: int| 0 <= i < pre.len() && pre[i].key == k;
    assert(pre[i] == post.subrange(0, pre.len() as int)[i]);
    assert(post[i].key == k);
}

proof fn lemma_container_steps_frame(
    outs: Seq<OutView>,
    path: Seq<char>,
    data: Seq<u8>,
    icons: Seq<(u32, u32, u32)>,
    i: int,
    dir: Seq<char>,
    bin: Seq<char>,
)
    requires
        0 <= i,
    ensures
        match container_steps(outs, path, data, icons, i, dir, bin) {
            ResolveRes::Done(o2) => extends_fresh(outs, o2, dir, bin) && (forall|k: IconKey|
                #[trigger] has_key(o2, k) <==> (has_key(outs, k) || exists|l: int|
                    i <= l < icons.len() && #[trigger] container_key(icons[l]) == k)),
            ResolveRes::Fail(_) => true,
        },
    decreases icons.len() - i,
{
    if i < 0 || i >= icons.len() {
        lemma_extends_refl(outs, dir, bin);
    } else {
        let k0 = container_key(icons[i]);
        if has_key(outs, k0) {
            lemma_container_steps_frame(outs, path, data, icons, i + 1, dir, bin);
            match container_steps(outs, path, data, icons, i + 1, dir, bin) {
                ResolveRes::Done(o2) => {
                    assert forall|k: IconKey| #[trigger] has_key(o2, k) implies (has_key(outs, k)
                        || exists|l: int|
                        i <= l < icons.len() && #[trigger] container_key(icons[l]) == k) by {
                        if !has_key(outs, k) {
                            let l = choose|l: int|
                                i + 1 <= l < icons.len() && #[trigger] container_key(icons[l])
                                    == k;
                            assert(i <= l < icons.len() && container_key(icons[l]) == k);
                        }
                    }
                    assert forall|k: IconKey| (has_key(outs, k) || exists|l: int|
                        i <= l < icons.len() && #[trigger] container_key(icons[l])
                            == k) implies #[trigger] has_key(o2, k) by {
                        if !has_key(outs, k) {
                            let l = choose|l: int|
                                i <= l < icons.len() && #[trigger] container_key(icons[l]) == k;
                            assert(l != i);
                            assert(i + 1 <= l < icons.len() && container_key(icons[l]) == k);
                        }
                    }
                },
                ResolveRes::Fail(_) => {},
            }
        } else {
            match icns_png_of(data, i) {
                None => {},
                Some(png) => {
                    let x = OutView { key: k0, dest: icon_dest_path_of(dir, k0, bin), data: png };
                    let mid = outs.push(x);
                    lemma_extends_push(outs, x, dir, bin);
                    lemma_container_steps_frame(mid, path, data, icons, i + 1, dir, bin);
                    match container_steps(mid, path, data, icons, i + 1, dir, bin) {
                        ResolveRes::Done(o2) => {
                            lemma_extends_trans(outs, mid, o2, dir, bin);
                            assert forall|k: IconKey| #[trigger] has_key(o2, k) implies (has_key(
                                outs,
                                k,
                            ) || exists|l: int|
                                i <= l < icons.len() && #[trigger] container_key(icons[l])
                                    == k) by {
                                lemma_has_key_push(outs, x, k);
                                if !has_key(outs, k) {
                                    if has_key(mid, k) {
                                        assert(container_key(icons[i]) == k);
                                    } else {
                                        let l = choose|l: int|
                                            i + 1 <= l < icons.len() && #[trigger] container_key(
                                                icons[l],
                                            ) == k;
                                        assert(i <= l < icons.len() && container_key(icons[l])
                                            == k);
                                    }
                                }
                            }
                            assert forall|k: IconKey| (has_key(outs, k) || exists|l: int|
                                i <= l < icons.len() && #[trigger] container_key(icons[l])
                                    == k) implies #[trigger] has_key(o2, k) by {
                                lemma_has_key_push(outs, x, k);
                                if has_key(outs, k) {
                                    assert(has_key(mid, k));
                                } else {
                                    let l = choose|l: int|
                                        i <= l < icons.len() && #[trigger] container_key(icons[l])
                                            == k;
                                    if l == i {
                                        assert(has_key(mid, k));
                                    } else {
                                        assert(i + 1 <= l < icons.len() && container_key(icons[l])
                                            == k);
                                    }
                                }
                            }
                        },
                        ResolveRes::Fail(_) => {},
                    }
                },
            }
        }
    }
}

/// Whether candidate `c` observes key `k` in the given pass: it is
/// successfully classified there and one of its images maps to `k`.
pub open spec fn cand_observes_key(
    pass2: bool,
    c: Result<(Seq<char>, Seq<u8>), Seq<char>>,
    k: IconKey,
) -> bool {
    match c {
        Err(_) => false,
        Ok(pd) => match classify_path(pd.0) {
            IconFormat::NativePng => !pass2 && (png_dims_of(pd.1) matches Some(dm) && png_key(
                pd.0,
                dm.0,
                dm.1,
            ) == k),
            IconFormat::MultiImageContainer => pass2 && (icns_icons_of(pd.1) matches Some(icons)
                && exists|l: int| 0 <= l < icons.len() && #[trigger] container_key(icons[l]) == k),
            IconFormat::GenericRaster => pass2 && (raster_png_of(pd.1) matches Some(t) && png_key(
                pd.0,
                t.0,
                t.1,
            ) == k),
        },
    }
}

/// Whether any candidate from index `i` on observes key `k` in the given pass.
pub open spec fn observes_key(
    pass2: bool,
    cands: Seq<Result<(Seq<char>, Seq<u8>), Seq<char>>>,
    i: int,
    k: IconKey,
) -> bool
    decreases cands.len() - i,
{
    if i < 0 || i >= cands.len() {
        false
    } else {
        cand_observes_key(pass2, cands[i], k) || observes_key(pass2, cands, i + 1, k)
    }
}

proof fn lemma_cand_step_frame(
    pass2: bool,
    outs: Seq<OutView>,
    c: Result<(Seq<char>, Seq<u8>), Seq<char>>,
    dir: Seq<char>,
    bin: Seq<char>,
)
    ensures
        match cand_step(pass2, outs, c, dir, bin) {
            ResolveRes::Done(o2) => extends_fresh(outs, o2, dir, bin) && (forall|k: IconKey|
                #[trigger] has_key(o2, k) <==> (has_key(outs, k) || cand_observes_key(
                    pass2,
                    c,
                    k,
                ))),
            ResolveRes::Fail(_) => true,
        },
{
    match c {
        Err(_) => {},
        Ok(pd) => {
            match classify_path(pd.0) {
                IconFormat::NativePng => {
                    if !pass2 {
                        match png_dims_of(pd.1) {
                            None => {},
                            Some(dm) => {
                                let k0 = png_key(pd.0, dm.0, dm.1);
                                if has_key(outs, k0) {
                                    lemma_extends_refl(outs, dir, bin);
                                } else {
                                    let x = OutView {
                                        key: k0,
                                        dest: icon_dest_path_of(dir, k0, bin),
                                        data: pd.1,
                                    };
                                    lemma_extends_push(outs, x, dir, bin);
                                    assert forall|k: IconKey| #[trigger] has_key(outs.push(x), k)
                                        <==> (has_key(outs, k) || cand_observes_key(
                                        pass2,
                                        c,
                                        k,
                                    )) by {
                                        lemma_has_key_push(outs, x, k);
                                    }
                                }
                            },
                        }
                    } else {
                        lemma_extends_refl(outs, dir, bin);
                    }
                },
                IconFormat::MultiImageContainer => {
                    if pass2 {
                        match icns_icons_of(pd.1) {
                            None => {},
                            Some(icons) => {
                                lemma_container_steps_frame(outs, pd.0, pd.1, icons, 0, dir, bin);
                            },
                        }
                    } else {
                        lemma_extends_refl(outs, dir, bin);
                    }
                },
                IconFormat::GenericRaster => {
                    if pass2 {
                        match raster_png_of(pd.1) {
                            None => {},
                            Some(t) => {
                                let k0 = png_key(pd.0, t.0, t.1);
                                if has_key(outs, k0) {
                                    lemma_extends_refl(outs, dir, bin);
                                } else {
                                    let x = OutView {
                                        key: k0,
                                        dest: icon_dest_path_of(dir, k0, bin),
                                        data: t.2,
                                    };
                                    lemma_extends_push(outs, x, dir, bin);
                                    assert forall|k: IconKey| #[trigger] has_key(outs.push(x), k)
                                        <==> (has_key(outs, k) || cand_observes_key(
                                        pass2,
                                        c,
                                        k,
                                    )) by {
                                        lemma_has_key_push(outs, x, k);
                                    }
                                }
                            },
                        }
                    } else {
                        lemma_extends_refl(outs, dir, bin);
                    }
                },
            }
        },
    }
}

proof fn lemma_run_pass_frame(
    pass2: bool,
    cands: Seq<Result<(Seq<char>, Seq<u8>), Seq<char>>>,
    i: int,
    outs: Seq<OutView>,
    dir: Seq<char>,
    bin: Seq<char>,
)
    ensures
        match run_pass(pass2, cands, i, outs, dir, bin) {
            ResolveRes::Done(o2) => extends_fresh(outs, o2, dir, bin) && (forall|k: IconKey|
                #[trigger] has_key(o2, k) <==> (has_key(outs, k) || observes_key(
                    pass2,
                    cands,
                    i,
                    k,
                ))),
            ResolveRes::Fail(_) => true,
        },
    decreases cands.len() - i,
{
    if i < 0 || i >= cands.len() {
        lemma_extends_refl(outs, dir, bin);
    } else {
        lemma_cand_step_frame(pass2, outs, cands[i], dir, bin);
        match cand_step(pass2, outs, cands[i], dir, bin) {
            ResolveRes::Fail(_) => {},
            ResolveRes::Done(mid) => {
                lemma_run_pass_frame(pass2, cands, i + 1, mid, dir, bin);
                match run_pass(pass2, cands, i + 1, mid, dir, bin) {
                    ResolveRes::Done(o2) => {
                        lemma_extends_trans(outs, mid, o2, dir, bin);
                    },
                    ResolveRes::Fail(_) => {},
                }
            },
        }
    }
}

/// Dedup invariant: a successful resolution plans pairwise-distinct keys, and
/// it plans a key exactly when one of the successfully classified sources
/// observes that key in its pass — so the number of planned destination files
/// equals the number of distinct keys observed, never more.
pub proof fn lemma_dedup_invariant(
    cands: Seq<Result<(Seq<char>, Seq<u8>), Seq<char>>>,
    dir: Seq<char>,
    bin: Seq<char>,
)
    ensures
        match resolve_icons_spec(cands, dir, bin) {
            ResolveRes::Done(outs) => distinct_keys(outs) && (forall|k: IconKey|
                #[trigger] has_key(outs, k) <==> (observes_key(false, cands, 0, k) || observes_key(
                    true,
                    cands,
                    0,
                    k,
                ))),
            ResolveRes::Fail(_) => true,
        },
{
    let empty = Seq::<OutView>::empty();
    lemma_run_pass_frame(false, cands, 0, empty, dir, bin);
    match run_pass(false, cands, 0, empty, dir, bin) {
        ResolveRes::Fail(_) => {},
        ResolveRes::Done(o1) => {
            lemma_run_pass_frame(true, cands, 0, o1, dir, bin);
            match run_pass(true, cands, 0, o1, dir, bin) {
                ResolveRes::Fail(_) => {},
                ResolveRes::Done(o2) => {
                    lemma_extends_trans(empty, o1, o2, dir, bin);
                    assert forall|i: int, j: int| 0 <= i < j < o2.len() implies o2[i].key
                        != o2[j].key by {
                        assert(o2.take(j)[i] == o2[i]);
                        if o2[i].key == o2[j].key {
                            assert(has_key(o2.take(j), o2[j].key));
                        }
                    }
                },
            }
        },
    }
}

/// The bytes of the first native PNG candidate, from index `i` on, whose key
/// is `k` (counting only candidates whose header decodes).
pub open spec fn first_png_data(
    cands: Seq<Result<(Seq<char>, Seq<u8>), Seq<char>>>,
    i: int,
    k: IconKey,
) -> Option<Seq<u8>>
    decreases cands.len() - i,
{
    if i < 0 || i >= cands.len() {
        None
    } else {
        let hit = match cands[i] {
            Ok(pd) => classify_path(pd.0) == IconFormat::NativePng && (png_dims_of(pd.1)
                matches Some(dm) && png_key(pd.0, dm.0, dm.1) == k),
            Err(_) => false,
        };
        if hit {
            Some(cands[i]->Ok_0.1)
        } else {
            first_png_data(cands, i + 1, k)
        }
    }
}

proof fn lemma_pass1_data(
    cands: Seq<Result<(Seq<char>, Seq<u8>), Seq<char>>>,
    i: int,
    outs: Seq<OutView>,
    dir: Seq<char>,
    bin: Seq<char>,
    k: IconKey,
    d: Seq<u8>,
)
    requires
        first_png_data(cands, i, k) == Some(d),
        !has_key(outs, k),
    ensures
        match run_pass(false, cands, i, outs, dir, bin) {
            ResolveRes::Done(o1) => exists|j: int|
                0 <= j < o1.len() && o1[j].key == k && (#[trigger] o1[j]).data == d,
            ResolveRes::Fail(_) => true,
        },
    decreases cands.len() - i,
{
    match cands[i] {
        Err(_) => {},
        Ok(pd) => {
            let hit = classify_path(pd.0) == IconFormat::NativePng && (png_dims_of(pd.1)
                matches Some(dm) && png_key(pd.0, dm.0, dm.1) == k);
            if hit {
                let x = OutView { key: k, dest: icon_dest_path_of(dir, k, bin), data: pd.1 };
                let mid = outs.push(x);
                assert(cand_step(false, outs, cands[i], dir, bin) == ResolveRes::Done(mid));
                lemma_run_pass_frame(false, cands, i + 1, mid, dir, bin);
                match run_pass(false, cands, i + 1, mid, dir, bin) {
                    ResolveRes::Done(o1) => {
                        assert(mid[outs.len() as int] == x);
                        assert(mid[outs.len() as int] == o1.subrange(
                            0,
                            mid.len() as int,
                        )[outs.len() as int]);
                        assert(o1[outs.len() as int].key == k && o1[outs.len() as int].data == d);
                    },
                    ResolveRes::Fail(_) => {},
                }
            } else {
                match cand_step(false, outs, cands[i], dir, bin) {
                    ResolveRes::Fail(_) => {},
                    ResolveRes::Done(mid) => {
                        if classify_path(pd.0) == IconFormat::NativePng {
                            match png_dims_of(pd.1) {
                                None => {
                                    assert(false);
                                },
                                Some(dm) => {
                                    let k2 = png_key(pd.0, dm.0, dm.1);
                                    assert(k2 != k);
                                    if !has_key(outs, k2) {
                                        let x2 = OutView {
                                            key: k2,
                                            dest: icon_dest_path_of(dir, k2, bin),
                                            data: pd.1,
                                        };
                                        lemma_has_key_push(outs, x2, k);
                                    }
                                },
                            }
                        }
                        assert(!has_key(mid, k));
                        lemma_pass1_data(cands, i + 1, mid, dir, bin, k, d);
                    },
                }
            }
        },
    }
}

/// Precedence invariant: when some native PNG source maps to key `k`, the
/// planned file covering `k` in a successful resolution carries, verbatim, the
/// bytes of the first such PNG source — whatever non-PNG sources also offer
/// `k`, and wherever they stand in the candidate list.
pub proof fn lemma_png_precedence(
    cands: Seq<Result<(Seq<char>, Seq<u8>), Seq<char>>>,
    dir: Seq<char>,
    bin: Seq<char>,
    k: IconKey,
    d: Seq<u8>,
)
    requires
        first_png_data(cands, 0, k) == Some(d),
    ensures
        match resolve_icons_spec(cands, dir, bin) {
            ResolveRes::Done(outs) => exists|j: int|
                0 <= j < outs.len() && outs[j].key == k && (#[trigger] outs[j]).data == d,
            ResolveRes::Fail(_) => true,
        },
{
    let empty = Seq::<OutView>::empty();
    lemma_pass1_data(cands, 0, empty, dir, bin, k, d);
    match run_pass(false, cands, 0, empty, dir, bin) {
        ResolveRes::Fail(_) => {},
        ResolveRes::Done(o1) => {
            lemma_run_pass_frame(true, cands, 0, o1, dir, bin);
            match run_pass(true, cands, 0, o1, dir, bin) {
                ResolveRes::Fail(_) => {},
                ResolveRes::Done(o2) => {
                    let j = choose|j: int|
                        0 <= j < o1.len() && o1[j].key == k && (#[trigger] o1[j]).data == d;
                    assert(o1[j] == o2.subrange(0, o1.len() as int)[j]);
                    assert(o2[j].key == k && o2[j].data == d);
                },
            }
        },
    }
}

/// Path invariant: in a successful resolution every planned destination path
/// matches the themed template for its key, with `@2x` appearing exactly when
/// the key is high-density.
pub proof fn lemma_path_invariant(
    cands: Seq<Result<(Seq<char>, Seq<u8>), Seq<char>>>,
    dir: Seq<char>,
    bin: Seq<char>,
)
    ensures
        match resolve_icons_spec(cands, dir, bin) {
            ResolveRes::Done(outs) => forall|j: int|
                0 <= j < outs.len() ==> (#[trigger] outs[j]).dest == icon_dest_path_of(
                    dir,
                    outs[j].key,
                    bin,
                ),
            ResolveRes::Fail(_) => true,
        },
{
    let empty = Seq::<OutView>::empty();
    lemma_run_pass_frame(false, cands, 0, empty, dir, bin);
    match run_pass(false, cands, 0, empty, dir, bin) {
        ResolveRes::Fail(_) => {},
        ResolveRes::Done(o1) => {
            lemma_run_pass_frame(true, cands, 0, o1, dir, bin);
            match run_pass(true, cands, 0, o1, dir, bin) {
                ResolveRes::Fail(_) => {},
                ResolveRes::Done(o2) => {
                    lemma_extends_trans(empty, o1, o2, dir, bin);
                },
            }
        },
    }
}

} // verus!
