//! Discovery: what counts as a candidate file, the item handed down the
//! pipeline, and the watcher's event decisions.

use vstd::prelude::*;
use vstd::string::StrSliceExecFns;
use vstd::string::StringExecFns;
use vstd::string::StringSliceAdditionalSpecFns;
use crate::bytes::{contains_seq, utf8};
use crate::catalog::DbWriteItem;
use crate::text::{last_slash, lower_chars, split_path, str_eq};

verus! {

/// One discovered candidate file.
pub struct DiscoverItem {
    pub path: String,
    pub size_bytes: i64,
    pub mtime_ns: i64,
    pub ctime_ns: i64,
    pub dirname: String,
    pub filename: String,
    pub ext: String,
    pub mime: String,
}

/// A file on its way to the hasher.
pub struct HashJob {
    pub path: String,
    pub size_bytes: i64,
    pub mtime_ns: i64,
    pub ctime_ns: i64,
    pub dirname: String,
    pub filename: String,
    pub ext: String,
    pub mime: String,
}

/// What the hasher hands on: the job with its raw fingerprints.
pub struct HashResult {
    pub job: HashJob,
    pub xxh64: i64,
    pub sha256: Option<Vec<u8>>,
}

/// A hashed file on its way to metadata extraction.
pub struct MetaJob {
    pub job: HashJob,
    pub xxh64: Option<i64>,
    /// Lowercase hex digest when one was computed.
    pub sha256: Option<String>,
}

/// Hidden entries have a name starting with a dot.
pub open spec fn spec_is_hidden(name: Seq<char>) -> bool {
    name.len() > 0 && name[0] == '.'
}

pub fn is_hidden(name: &str) -> (r: bool)
    ensures
        r == spec_is_hidden(name@),
{
    if name.unicode_len() == 0 {
        false
    } else {
        name.get_char(0) == '.'
    }
}

/// A path is ignored when any ignore pattern occurs in it, byte for byte.
pub open spec fn spec_ignored(path: Seq<u8>, patterns: Seq<Seq<u8>>) -> bool {
    exists|i: int| 0 <= i < patterns.len() && contains_seq(path, #[trigger] patterns[i])
}

pub fn ignored(path: &str, patterns: &Vec<String>) -> (r: bool)
    ensures
        r == spec_ignored(
            path.spec_bytes(),
            patterns@.map_values(|p: String| utf8(p@)),
        ),
{
    let ghost pats = patterns@.map_values(|p: String| utf8(p@));
    let mut i: usize = 0;
    while i < patterns.len()
        invariant
            i <= patterns@.len(),
            pats == patterns@.map_values(|p: String| utf8(p@)),
            forall|k: int| 0 <= k < i ==> !contains_seq(path.spec_bytes(), #[trigger] pats[k]),
        decreases patterns@.len() - i,
    {
        if crate::bytes::contains_bytes(path.as_bytes(), patterns[i].as_str().as_bytes()) {
            assert(contains_seq(path.spec_bytes(), pats[i as int]));
            return true;
        }
        i = i + 1;
    }
    false
}

/// The extension of a file name: what follows the last dot, when a dot
/// stands after the first character.
pub open spec fn spec_ext_split(name: Seq<char>) -> int
    decreases name.len(),
{
    if name.len() == 0 {
        -1
    } else if name.last() == '.' {
        name.len() - 1
    } else {
        spec_ext_split(name.drop_last())
    }
}

pub open spec fn spec_extension_of(name: Seq<char>) -> Option<Seq<char>> {
    let d = spec_ext_split(name);
    if d >= 1 {
        Some(name.subrange(d + 1, name.len() as int))
    } else {
        None
    }
}

/// The extension of a file name, if any.
pub fn extension_of(name: &str) -> (r: Option<String>)
    ensures
        match r {
            Some(e) => spec_extension_of(name@) matches Some(s) && e@ == s,
            None => spec_extension_of(name@) is None,
        },
{
    let n = name.unicode_len();
    let mut i: usize = n;
    proof {
        assert(name@.take(n as int) =~= name@);
    }
    while i > 0
        invariant
            i <= n,
            n == name@.len(),
            spec_ext_split(name@) == spec_ext_split(name@.take(i as int)),
        decreases i,
    {
        proof {
            assert(name@.take(i as int).drop_last() =~= name@.take(i - 1));
        }
        if name.get_char(i - 1) == '.' {
            proof {
                assert(name@.take(i as int).last() == name@[i - 1]);
                assert(spec_ext_split(name@.take(i as int)) == i - 1);
            }
            if i - 1 >= 1 {
                let e = name.substring_char(i, n);
                proof {
                    assert(e@ =~= name@.subrange(i as int, name@.len() as int));
                }
                return Some(String::from_str(e));
            }
            return None;
        }
        i = i - 1;
    }
    proof {
        assert(name@.take(0) =~= Seq::<char>::empty());
        assert(spec_ext_split(name@) == -1);
    }
    None
}

/// The lowercase image extensions that pass the pre-filter.
pub open spec fn spec_is_image_ext(e: Seq<char>) -> bool {
    ||| e == "jpg"@ ||| e == "jpeg"@ ||| e == "png"@ ||| e == "gif"@ ||| e == "bmp"@
    ||| e == "webp"@ ||| e == "tiff"@ ||| e == "tif"@ ||| e == "heic"@ ||| e == "heif"@
    ||| e == "raw"@ ||| e == "cr2"@ ||| e == "nef"@ ||| e == "orf"@ ||| e == "sr2"@
    ||| e == "arw"@ ||| e == "dng"@ ||| e == "rw2"@ ||| e == "raf"@ ||| e == "pef"@
    ||| e == "srw"@ ||| e == "3fr"@ ||| e == "x3f"@ ||| e == "mrw"@ ||| e == "mef"@
    ||| e == "mos"@ ||| e == "erf"@ ||| e == "dcr"@ ||| e == "kdc"@ ||| e == "fff"@
    ||| e == "iiq"@ ||| e == "rwl"@ ||| e == "r3d"@ ||| e == "ari"@ ||| e == "bay"@
    ||| e == "cap"@ ||| e == "data"@ ||| e == "dcs"@ ||| e == "drf"@ ||| e == "eip"@
    ||| e == "k25"@ ||| e == "mdc"@ ||| e == "nrw"@ ||| e == "obm"@ ||| e == "ptx"@
    ||| e == "pxn"@ ||| e == "rwz"@ ||| e == "srf"@ ||| e == "crw"@
}

/// The lowercase video extensions that pass the pre-filter.
pub open spec fn spec_is_video_ext(e: Seq<char>) -> bool {
    ||| e == "mp4"@ ||| e == "avi"@ ||| e == "mov"@ ||| e == "mkv"@ ||| e == "wmv"@
    ||| e == "flv"@ ||| e == "webm"@ ||| e == "m4v"@ ||| e == "mpg"@ ||| e == "mpeg"@
    ||| e == "3gp"@ ||| e == "3g2"@ ||| e == "asf"@ ||| e == "rm"@ ||| e == "rmvb"@
    ||| e == "vob"@ ||| e == "ts"@ ||| e == "mts"@ ||| e == "m2ts"@ ||| e == "ogv"@
    ||| e == "divx"@ ||| e == "xvid"@
}

fn is_image_ext(e: &str) -> (r: bool)
    ensures
        r == spec_is_image_ext(e@),
{
    str_eq(e, "jpg") || str_eq(e, "jpeg") || str_eq(e, "png") || str_eq(e, "gif") || str_eq(
        e,
        "bmp",
    ) || str_eq(e, "webp") || str_eq(e, "tiff") || str_eq(e, "tif") || str_eq(e, "heic")
        || str_eq(e, "heif") || str_eq(e, "raw") || str_eq(e, "cr2") || str_eq(e, "nef")
        || str_eq(e, "orf") || str_eq(e, "sr2") || str_eq(e, "arw") || str_eq(e, "dng")
        || str_eq(e, "rw2") || str_eq(e, "raf") || str_eq(e, "pef") || str_eq(e, "srw")
        || str_eq(e, "3fr") || str_eq(e, "x3f") || str_eq(e, "mrw") || str_eq(e, "mef")
        || str_eq(e, "mos") || str_eq(e, "erf") || str_eq(e, "dcr") || str_eq(e, "kdc")
        || str_eq(e, "fff") || str_eq(e, "iiq") || str_eq(e, "rwl") || str_eq(e, "r3d")
        || str_eq(e, "ari") || str_eq(e, "bay") || str_eq(e, "cap") || str_eq(e, "data")
        || str_eq(e, "dcs") || str_eq(e, "drf") || str_eq(e, "eip") || str_eq(e, "k25")
        || str_eq(e, "mdc") || str_eq(e, "nrw") || str_eq(e, "obm") || str_eq(e, "ptx")
        || str_eq(e, "pxn") || str_eq(e, "rwz") || str_eq(e, "srf") || str_eq(e, "crw")
}

fn is_video_ext(e: &str) -> (r: bool)
    ensures
        r == spec_is_video_ext(e@),
{
    str_eq(e, "mp4") || str_eq(e, "avi") || str_eq(e, "mov") || str_eq(e, "mkv") || str_eq(
        e,
        "wmv",
    ) || str_eq(e, "flv") || str_eq(e, "webm") || str_eq(e, "m4v") || str_eq(e, "mpg")
        || str_eq(e, "mpeg") || str_eq(e, "3gp") || str_eq(e, "3g2") || str_eq(e, "asf")
        || str_eq(e, "rm") || str_eq(e, "rmvb") || str_eq(e, "vob") || str_eq(e, "ts")
        || str_eq(e, "mts") || str_eq(e, "m2ts") || str_eq(e, "ogv") || str_eq(e, "divx")
        || str_eq(e, "xvid")
}

/// The extension pre-filter that runs before any stat call: the file name's
/// extension, case-folded, is a known image or video extension.
pub fn has_image_video_extension(name: &str) -> (r: bool)
    ensures
        r == match spec_extension_of(name@) {
            Some(e) => spec_is_image_ext(lower_chars(e)) || spec_is_video_ext(lower_chars(e)),
            None => false,
        },
{
    match extension_of(name) {
        Some(e) => {
            let low = crate::text::ascii_lower(e.as_str());
            is_image_ext(low.as_str()) || is_video_ext(low.as_str())
        },
        None => false,
    }
}

/// A file timestamp in nanoseconds since the epoch, when it fits.
pub fn timestamp_ns(secs: u64, subsec_nanos: u32) -> (r: Option<i64>)
    ensures
        match r {
            Some(v) => v == secs * 1_000_000_000 + subsec_nanos,
            None => secs * 1_000_000_000 + subsec_nanos > i64::MAX,
        },
{
    if secs <= 9_223_372_036 {
        let base: i64 = (secs as i64) * 1_000_000_000;
        if base <= i64::MAX - (subsec_nanos as i64) {
            Some(base + subsec_nanos as i64)
        } else {
            None
        }
    } else {
        proof {
            assert(secs * 1_000_000_000 >= 9_223_372_037u64 * 1_000_000_000) by (nonlinear_arith)
                requires
                    secs >= 9_223_372_037u64,
            ;
        }
        None
    }
}

/// The result of naming a path's MIME type from its extension table.
pub uninterp spec fn mime_of_path(path: Seq<char>) -> Seq<char>;

/// Relies on `mime_guess::from_path` (and `Mime::essence_str`): the MIME
/// guessed for a path from its extension, a fixed table lookup with
/// `application/octet-stream` as the fallback; a function of the path
/// alone.
#[verifier::external_body]
pub fn guess_mime(path: &str) -> (r: String)
    ensures
        r@ == mime_of_path(path@),
{
    mime_guess::from_path(std::path::Path::new(path))
        .first_or_octet_stream()
        .essence_str()
        .to_string()
}

/// Assemble the discover item for a path from its stat numbers: directory,
/// file name, case-folded extension, and the MIME guessed from the path.
pub fn make_discover_item(path: &str, size_bytes: i64, mtime_ns: i64, ctime_ns: i64) -> (r:
    DiscoverItem)
    ensures
        r.path@ == path@,
        r.size_bytes == size_bytes,
        r.mtime_ns == mtime_ns,
        r.ctime_ns == ctime_ns,
        ({
            let d = last_slash(path@);
            (if d >= 0 {
                r.dirname@ == path@.subrange(0, d) && r.filename@ == path@.subrange(
                    d + 1,
                    path@.len() as int,
                )
            } else {
                r.dirname@ == Seq::<char>::empty() && r.filename@ == path@
            })
        }),
        r.ext@ == (match spec_extension_of(r.filename@) {
            Some(e) => lower_chars(e),
            None => Seq::<char>::empty(),
        }),
        r.mime@ == mime_of_path(path@),
{
    let (dirname, filename) = split_path(path);
    let ext = match extension_of(filename.as_str()) {
        Some(e) => crate::text::ascii_lower(e.as_str()),
        None => String::new(),
    };
    let mime = guess_mime(path);
    DiscoverItem {
        path: String::from_str(path),
        size_bytes,
        mtime_ns,
        ctime_ns,
        dirname,
        filename,
        ext,
        mime,
    }
}

/// Hand a discover item to the hasher unchanged.
pub fn hash_job_of(it: DiscoverItem) -> (r: HashJob)
    ensures
        r.path == it.path,
        r.size_bytes == it.size_bytes,
        r.mtime_ns == it.mtime_ns,
        r.ctime_ns == it.ctime_ns,
        r.dirname == it.dirname,
        r.filename == it.filename,
        r.ext == it.ext,
        r.mime == it.mime,
{
    HashJob {
        path: it.path,
        size_bytes: it.size_bytes,
        mtime_ns: it.mtime_ns,
        ctime_ns: it.ctime_ns,
        dirname: it.dirname,
        filename: it.filename,
        ext: it.ext,
        mime: it.mime,
    }
}

/// Settle the hashing stage for one job.  When the file's bytes could be
/// read, they are fingerprinted under the usual policy; when they could
/// not, the job still proceeds — with a zero fingerprint and no digest —
/// so a hash failure never aborts the pipeline.
pub fn hash_stage_result(job: HashJob, data: Option<&[u8]>, is_video: bool, size_bytes: i64) -> (r:
    HashResult)
    ensures
        r.job == job,
        match data {
            Some(d) => {
                &&& r.xxh64 == crate::hashing::xxh3_of(d@) as i64
                &&& (match r.sha256 {
                    Some(s) => crate::hashing::spec_needs_sha256(is_video, size_bytes) && s@
                        == crate::hashing::sha256_of(d@) && s@.len() == 32,
                    None => !crate::hashing::spec_needs_sha256(is_video, size_bytes),
                })
            },
            None => r.xxh64 == 0 && r.sha256 is None,
        },
{
    match data {
        Some(d) => {
            let outcome = crate::hashing::hash_bytes(d, is_video, size_bytes);
            HashResult {
                job,
                xxh64: #[verifier::truncate] (outcome.xxh64 as i64),
                sha256: outcome.sha256,
            }
        },
        None => HashResult { job, xxh64: 0, sha256: None },
    }
}

/// Turn a hash result into a metadata job, rendering the raw digest into
/// its 64 lowercase hex digits.
pub fn meta_job_of(r: HashResult) -> (m: MetaJob)
    requires
        match r.sha256 {
            Some(d) => d@.len() == 32,
            None => true,
        },
    ensures
        m.job == r.job,
        m.xxh64 == Some(r.xxh64),
        match (m.sha256, r.sha256) {
            (Some(h), Some(d)) => h@ == crate::hashing::hex_chars_of(d@) && h@.len() == 64,
            (None, None) => true,
            _ => false,
        },
{
    let sha256 = match &r.sha256 {
        Some(d) => {
            let h = crate::hashing::hex_encode(d.as_slice());
            proof {
                crate::hashing::lemma_hex_chars_ascii(d@);
            }
            Some(h)
        },
        None => None,
    };
    MetaJob { job: r.job, xxh64: Some(r.xxh64), sha256 }
}

/// Map a stored host path into the container's view of the same tree: the
/// host root prefix is replaced by the container root.
pub open spec fn spec_map_host_to_container(
    raw: Seq<char>,
    host_root: Seq<char>,
    container_root: Seq<char>,
) -> Option<Seq<char>> {
    if raw == host_root {
        Some(container_root)
    } else if raw.len() > host_root.len() && raw.subrange(0, host_root.len() as int) == host_root
        && raw[host_root.len() as int] == '/' {
        Some(container_root + raw.subrange(host_root.len() as int, raw.len() as int))
    } else {
        None
    }
}

/// Map a stored host path into the container's view of the same tree.
pub fn map_host_to_container(raw: &str, host_root: &str, container_root: &str) -> (r: Option<
    String,
>)
    ensures
        match r {
            Some(m) => spec_map_host_to_container(raw@, host_root@, container_root@)
                matches Some(s) && m@ == s,
            None => spec_map_host_to_container(raw@, host_root@, container_root@) is None,
        },
{
    let rn = raw.unicode_len();
    let hn = host_root.unicode_len();
    if str_eq(raw, host_root) {
        return Some(String::from_str(container_root));
    }
    if rn > hn {
        let head = raw.substring_char(0, hn);
        if str_eq(head, host_root) && raw.get_char(hn) == '/' {
            let tail = raw.substring_char(hn, rn);
            let mut m = String::from_str(container_root);
            m.append(tail);
            proof {
                assert(head@ =~= raw@.subrange(0, host_root@.len() as int));
                assert(tail@ =~= raw@.subrange(host_root@.len() as int, raw@.len() as int));
            }
            return Some(m);
        }
        proof {
            assert(head@ =~= raw@.subrange(0, host_root@.len() as int));
        }
        return None;
    }
    None
}

/// Resolve a stored path to the one this process should open: the stored
/// path itself when it exists here, else its host-to-container mapping
/// when one is configured and applies (even when the mapped file is absent,
/// so errors name the local path), else the stored path unchanged.
pub fn resolve_asset_path(raw: &str, host_root: Option<&str>, container_root: &str, raw_exists: bool) -> (r: String)
    ensures
        raw_exists ==> r@ == raw@,
        !raw_exists ==> match host_root {
            Some(h) => match spec_map_host_to_container(raw@, h@, container_root@) {
                Some(m) => r@ == m,
                None => r@ == raw@,
            },
            None => r@ == raw@,
        },
{
    if raw_exists {
        return String::from_str(raw);
    }
    match host_root {
        Some(h) => match map_host_to_container(raw, h, container_root) {
            Some(m) => m,
            None => String::from_str(raw),
        },
        None => String::from_str(raw),
    }
}

/// Assemble the catalog write for a metadata job: the capture time defaults
/// to the file's modification time in whole seconds.
pub fn build_write_item(
    m: MetaJob,
    width: Option<i64>,
    height: Option<i64>,
    duration_ms: Option<i64>,
    video_codec: Option<String>,
) -> (r: DbWriteItem)
    ensures
        r.path == m.job.path,
        r.dirname == m.job.dirname,
        r.filename == m.job.filename,
        r.ext == m.job.ext,
        r.size_bytes == m.job.size_bytes,
        r.mtime_ns == m.job.mtime_ns,
        r.ctime_ns == m.job.ctime_ns,
        r.sha256 == m.sha256,
        r.xxh64 == m.xxh64,
        r.taken_at matches Some(t) && (m.job.mtime_ns >= 0 ==> t == m.job.mtime_ns
            / 1_000_000_000),
        r.width == width,
        r.height == height,
        r.duration_ms == duration_ms,
        r.video_codec == video_codec,
        r.mime == m.job.mime,
        r.flags == 0,
        r.camera_make is None && r.camera_model is None && r.lens_model is None && r.iso
            is None,
{
    let taken = m.job.mtime_ns / 1_000_000_000;
    DbWriteItem {
        path: m.job.path,
        dirname: m.job.dirname,
        filename: m.job.filename,
        ext: m.job.ext,
        size_bytes: m.job.size_bytes,
        mtime_ns: m.job.mtime_ns,
        ctime_ns: m.job.ctime_ns,
        sha256: m.sha256,
        xxh64: m.xxh64,
        taken_at: Some(taken),
        width,
        height,
        duration_ms,
        camera_make: None,
        camera_model: None,
        lens_model: None,
        iso: None,
        video_codec,
        mime: m.job.mime,
        flags: 0,
    }
}

/// The millisecond value of a decimal fraction: the first three fraction
/// digits, padded with zeros.
pub open spec fn spec_frac_ms(fr: Seq<u8>) -> int {
    let d0: int = if fr.len() > 0 {
        fr[0] - 48
    } else {
        0
    };
    let d1: int = if fr.len() > 1 {
        fr[1] - 48
    } else {
        0
    };
    let d2: int = if fr.len() > 2 {
        fr[2] - 48
    } else {
        0
    };
    d0 * 100 + d1 * 10 + d2
}

/// Whether a probe duration string is well formed (`<digits>` or
/// `<digits>.<digits>`) with a millisecond value that fits.
pub open spec fn spec_duration_ok(s: Seq<u8>) -> bool {
    let d = crate::range::find_byte_from(s, 0, 46);
    if d < 0 {
        s.len() > 0 && crate::bytes::all_digits(s) && crate::bytes::dec_val(s) * 1000
            <= i64::MAX
    } else {
        let intp = s.subrange(0, d);
        let frac = s.subrange(d + 1, s.len() as int);
        intp.len() > 0 && crate::bytes::all_digits(intp) && crate::bytes::all_digits(frac)
            && crate::bytes::dec_val(intp) * 1000 + spec_frac_ms(frac) <= i64::MAX
    }
}

/// The millisecond value of a well-formed probe duration string.
pub open spec fn spec_duration_ms(s: Seq<u8>) -> int {
    let d = crate::range::find_byte_from(s, 0, 46);
    if d < 0 {
        crate::bytes::dec_val(s) * 1000int
    } else {
        crate::bytes::dec_val(s.subrange(0, d)) * 1000int + spec_frac_ms(
            s.subrange(d + 1, s.len() as int),
        )
    }
}

/// Three padded fraction digits lie between 0 and 999.
proof fn lemma_frac_ms_bounds(fr: Seq<u8>)
    requires
        crate::bytes::all_digits(fr),
    ensures
        0 <= spec_frac_ms(fr) <= 999,
{
    if fr.len() > 0 {
        assert(crate::bytes::is_digit(fr[0]));
    }
    if fr.len() > 1 {
        assert(crate::bytes::is_digit(fr[1]));
    }
    if fr.len() > 2 {
        assert(crate::bytes::is_digit(fr[2]));
    }
}

fn find_dot(s: &[u8], from: usize) -> (r: Option<usize>)
    requires
        from <= s@.len(),
    ensures
        match r {
            Some(i) => from <= i < s@.len() && crate::range::find_byte_from(s@, from as int, 46)
                == i,
            None => crate::range::find_byte_from(s@, from as int, 46) == -1,
        },
    decreases s@.len() - from,
{
    if from == s.len() {
        None
    } else if s[from] == 46 {
        Some(from)
    } else {
        find_dot(s, from + 1)
    }
}

/// Parse a probe duration (`12.345678` seconds) into whole milliseconds,
/// truncating beyond the third fraction digit.  Succeeds exactly on
/// well-formed strings whose value fits.
pub fn duration_str_to_ms(ds: &str) -> (r: Option<i64>)
    ensures
        match r {
            Some(ms) => spec_duration_ok(ds.spec_bytes()) && ms == spec_duration_ms(
                ds.spec_bytes(),
            ),
            None => !spec_duration_ok(ds.spec_bytes()),
        },
{
    let s = ds.as_bytes();
    let limit: u64 = 9223372036854775u64;
    match find_dot(s, 0) {
        None => {
            match crate::bytes::parse_u64(s) {
                Some(v) => {
                    if v <= limit {
                        assert(v * 1000 <= i64::MAX) by (nonlinear_arith)
                            requires
                                v <= 9223372036854775u64,
                        ;
                        Some((v * 1000) as i64)
                    } else {
                        proof {
                            assert(v * 1000 > i64::MAX) by (nonlinear_arith)
                                requires
                                    v > 9223372036854775u64,
                            ;
                        }
                        None
                    }
                },
                None => {
                    proof {
                        if crate::bytes::all_digits(s@) && s@.len() > 0 {
                            // the parse failed only because the value
                            // overflows, so the milliseconds overflow too
                            assert(crate::bytes::dec_val(s@) > u64::MAX);
                            assert(crate::bytes::dec_val(s@) * 1000 > i64::MAX)
                                by (nonlinear_arith)
                                requires
                                    crate::bytes::dec_val(s@) > u64::MAX,
                            ;
                        }
                    }
                    None
                },
            }
        },
        Some(d) => {
            let n = s.len();
            assert(d < n);
            let intp = vstd::slice::slice_subrange(s, 0, d);
            let frac = vstd::slice::slice_subrange(s, d + 1, n);
            let whole = match crate::bytes::parse_u64(intp) {
                Some(v) => v,
                None => {
                    proof {
                        if crate::bytes::all_digits(intp@) && intp@.len() > 0
                            && crate::bytes::all_digits(frac@) {
                            assert(crate::bytes::dec_val(intp@) > u64::MAX);
                            lemma_frac_ms_bounds(frac@);
                            assert(crate::bytes::dec_val(intp@) * 1000int > i64::MAX + 999)
                                by (nonlinear_arith)
                                requires
                                    crate::bytes::dec_val(intp@) > u64::MAX,
                            ;
                        }
                    }
                    return None;
                },
            };
            let mut k: usize = 0;
            while k < frac.len()
                invariant
                    s@ == ds.spec_bytes(),
                    crate::range::find_byte_from(s@, 0, 46) == d as int,
                    d < s@.len(),
                    frac@ == s@.subrange(d + 1, s@.len() as int),
                    k <= frac@.len(),
                    forall|m: int| 0 <= m < k ==> crate::bytes::is_digit(#[trigger] frac@[m]),
                decreases frac@.len() - k,
            {
                if frac[k] < 48 || frac[k] > 57 {
                    assert(!crate::bytes::is_digit(frac@[k as int]));
                    assert(!crate::bytes::all_digits(frac@));
                    return None;
                }
                k = k + 1;
            }
            let d0: u64 = if frac.len() > 0 {
                (frac[0] - 48) as u64
            } else {
                0
            };
            let d1: u64 = if frac.len() > 1 {
                (frac[1] - 48) as u64
            } else {
                0
            };
            let d2: u64 = if frac.len() > 2 {
                (frac[2] - 48) as u64
            } else {
                0
            };
            let fms: u64 = d0 * 100 + d1 * 10 + d2;
            proof {
                lemma_frac_ms_bounds(frac@);
                assert(fms == spec_frac_ms(frac@));
            }
            if whole <= 9223372036854774u64 {
                assert(whole * 1000 + 999 <= i64::MAX) by (nonlinear_arith)
                    requires
                        whole <= 9223372036854774u64,
                ;
                Some((whole * 1000) as i64 + fms as i64)
            } else if whole == 9223372036854775u64 && fms <= 807 {
                assert(whole * 1000 + fms <= i64::MAX) by (nonlinear_arith)
                    requires
                        whole == 9223372036854775u64,
                        fms <= 807,
                ;
                Some((whole * 1000) as i64 + fms as i64)
            } else {
                proof {
                    if whole == 9223372036854775u64 {
                        assert(whole * 1000int + fms > i64::MAX) by (nonlinear_arith)
                            requires
                                whole == 9223372036854775u64,
                                fms > 807,
                        ;
                    } else {
                        assert(whole * 1000int + fms > i64::MAX) by (nonlinear_arith)
                            requires
                                whole > 9223372036854775u64,
                                fms >= 0,
                        ;
                    }
                }
                None
            }
        },
    }
}

/// The kinds of filesystem events the watcher reacts to.
#[derive(Clone, Copy, Debug, PartialEq, Eq, Structural)]
pub enum WatchEventKind {
    CreateOrModify,
    Remove,
    Other,
}

/// What the watcher does with one event path.
#[derive(Clone, Copy, Debug, PartialEq, Eq, Structural)]
pub enum WatchAction {
    /// Stat the path and send it down the pipeline.
    ForwardMedia,
    /// Delete the catalog row for the path and lower the committed count.
    DeleteByPath,
    /// Nothing.
    Skip,
}

/// Decide an event: a paused watcher drops everything; creations and
/// modifications of media files go down the pipeline; removals delete from
/// the catalog.
pub fn watch_event_action(kind: WatchEventKind, paused: bool, is_media: bool) -> (r:
    WatchAction)
    ensures
        r == (if paused {
            WatchAction::Skip
        } else {
            match kind {
                WatchEventKind::CreateOrModify => if is_media {
                    WatchAction::ForwardMedia
                } else {
                    WatchAction::Skip
                },
                WatchEventKind::Remove => WatchAction::DeleteByPath,
                WatchEventKind::Other => WatchAction::Skip,
            }
        }),
{
    if paused {
        WatchAction::Skip
    } else {
        match kind {
            WatchEventKind::CreateOrModify => if is_media {
                WatchAction::ForwardMedia
            } else {
                WatchAction::Skip
            },
            WatchEventKind::Remove => WatchAction::DeleteByPath,
            WatchEventKind::Other => WatchAction::Skip,
        }
    }
}

} // verus!
