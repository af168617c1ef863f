//! Hardware-acceleration detection: the decision over the external tool's
//! accelerator list, the scale filters present, and the devices found, with
//! the text parsing the device probes need.

use vstd::prelude::*;
use vstd::string::StringSliceAdditionalSpecFns;
use crate::breaker::GpuAccel;
use crate::bytes::{contains_seq, is_ws};
use crate::text::lower_chars;
use crate::text::str_eq;

verus! {

/// An explicit override of the detected acceleration; `auto` and unknown
/// values leave detection to run.
pub open spec fn spec_accel_override(s: Seq<char>) -> Option<GpuAccel> {
    if s == "off"@ {
        Some(GpuAccel::Cpu)
    } else if s == "cuda"@ {
        Some(GpuAccel::Cuda)
    } else if s == "qsv"@ {
        Some(GpuAccel::Qsv)
    } else if s == "d3d11va"@ {
        Some(GpuAccel::D3d11va)
    } else if s == "videotoolbox"@ {
        Some(GpuAccel::VideoToolbox)
    } else {
        None
    }
}

/// Parse the acceleration override, case-insensitively.
pub fn parse_accel_override(s: &str) -> (r: Option<GpuAccel>)
    ensures
        r == spec_accel_override(lower_chars(s@)),
{
    let low = crate::text::ascii_lower(s);
    if str_eq(low.as_str(), "off") {
        Some(GpuAccel::Cpu)
    } else if str_eq(low.as_str(), "cuda") {
        Some(GpuAccel::Cuda)
    } else if str_eq(low.as_str(), "qsv") {
        Some(GpuAccel::Qsv)
    } else if str_eq(low.as_str(), "d3d11va") {
        Some(GpuAccel::D3d11va)
    } else if str_eq(low.as_str(), "videotoolbox") {
        Some(GpuAccel::VideoToolbox)
    } else {
        None
    }
}

/// The bytes of `cuda`.
pub open spec fn cuda_bytes() -> Seq<u8> {
    seq![99u8, 117u8, 100u8, 97u8]
}

/// The bytes of `qsv`.
pub open spec fn qsv_bytes() -> Seq<u8> {
    seq![113u8, 115u8, 118u8]
}

/// The bytes of `d3d11va`.
pub open spec fn d3d11va_bytes() -> Seq<u8> {
    seq![100u8, 51u8, 100u8, 49u8, 49u8, 118u8, 97u8]
}

/// The bytes of `videotoolbox`.
pub open spec fn videotoolbox_bytes() -> Seq<u8> {
    seq![118u8, 105u8, 100u8, 101u8, 111u8, 116u8, 111u8, 111u8, 108u8, 98u8, 111u8, 120u8]
}

/// Which acceleration the process settles on: the override wins outright;
/// otherwise CUDA needs its scale filter and a physical device, QSV its
/// filter and an Intel device, and the decode-only accelerators only their
/// listing; with nothing found, the CPU it is.
pub open spec fn spec_choose_accel(
    env: Option<Seq<char>>,
    hwaccels: Seq<u8>,
    has_scale_cuda: bool,
    has_scale_qsv: bool,
    cuda_devices: u32,
    intel_gpu: bool,
) -> GpuAccel {
    let overridden = match env {
        Some(e) => spec_accel_override(lower_chars(e)),
        None => None,
    };
    match overridden {
        Some(a) => a,
        None => {
            if contains_seq(hwaccels, cuda_bytes()) && has_scale_cuda && cuda_devices > 0 {
                GpuAccel::Cuda
            } else if contains_seq(hwaccels, qsv_bytes()) && has_scale_qsv && intel_gpu {
                GpuAccel::Qsv
            } else if contains_seq(hwaccels, d3d11va_bytes()) {
                GpuAccel::D3d11va
            } else if contains_seq(hwaccels, videotoolbox_bytes()) {
                GpuAccel::VideoToolbox
            } else {
                GpuAccel::Cpu
            }
        },
    }
}

/// Settle the acceleration from the probes' results.
pub fn choose_accel(
    env: Option<&str>,
    hwaccels: &str,
    has_scale_cuda: bool,
    has_scale_qsv: bool,
    cuda_devices: u32,
    intel_gpu: bool,
) -> (r: GpuAccel)
    ensures
        r == spec_choose_accel(
            match env {
                Some(e) => Some(e@),
                None => None,
            },
            hwaccels.spec_bytes(),
            has_scale_cuda,
            has_scale_qsv,
            cuda_devices,
            intel_gpu,
        ),
{
    match env {
        Some(e) => match parse_accel_override(e) {
            Some(a) => {
                return a;
            },
            None => {},
        },
        None => {},
    }
    let hw = hwaccels.as_bytes();
    let cuda: Vec<u8> = vec![99u8, 117u8, 100u8, 97u8];
    let qsv: Vec<u8> = vec![113u8, 115u8, 118u8];
    let d3d: Vec<u8> = vec![100u8, 51u8, 100u8, 49u8, 49u8, 118u8, 97u8];
    let vtb: Vec<u8> = vec![
        118u8, 105u8, 100u8, 101u8, 111u8, 116u8, 111u8, 111u8, 108u8, 98u8, 111u8, 120u8,
    ];
    proof {
        assert(cuda@ =~= cuda_bytes());
        assert(qsv@ =~= qsv_bytes());
        assert(d3d@ =~= d3d11va_bytes());
        assert(vtb@ =~= videotoolbox_bytes());
    }
    if crate::bytes::contains_bytes(hw, cuda.as_slice()) && has_scale_cuda && cuda_devices
        > 0 {
        GpuAccel::Cuda
    } else if crate::bytes::contains_bytes(hw, qsv.as_slice()) && has_scale_qsv && intel_gpu {
        GpuAccel::Qsv
    } else if crate::bytes::contains_bytes(hw, d3d.as_slice()) {
        GpuAccel::D3d11va
    } else if crate::bytes::contains_bytes(hw, vtb.as_slice()) {
        GpuAccel::VideoToolbox
    } else {
        GpuAccel::Cpu
    }
}

/// The lines of a byte text: the segments between newline bytes, with a
/// final unterminated segment kept only when it is non-empty.
pub open spec fn lines_from(s: Seq<u8>, i: int, cur: Seq<u8>, acc: Seq<Seq<u8>>) -> Seq<
    Seq<u8>,
>
    decreases s.len() - i,
{
    if i < 0 || i >= s.len() {
        if cur.len() > 0 {
            acc.push(cur)
        } else {
            acc
        }
    } else if s[i] == 10 {
        lines_from(s, i + 1, Seq::empty(), acc.push(cur))
    } else {
        lines_from(s, i + 1, cur.push(s[i]), acc)
    }
}

pub open spec fn spec_lines(s: Seq<u8>) -> Seq<Seq<u8>> {
    lines_from(s, 0, Seq::empty(), Seq::empty())
}

/// Split a byte text into its lines.
pub fn split_lines(s: &[u8]) -> (r: Vec<Vec<u8>>)
    ensures
        r@.map_values(|l: Vec<u8>| l@) == spec_lines(s@),
{
    let mut acc: Vec<Vec<u8>> = Vec::new();
    let mut cur: Vec<u8> = Vec::new();
    let mut i: usize = 0;
    proof {
        assert(acc@.map_values(|l: Vec<u8>| l@) =~= Seq::<Seq<u8>>::empty());
        assert(cur@ =~= Seq::<u8>::empty());
    }
    while i < s.len()
        invariant
            i <= s@.len(),
            lines_from(s@, i as int, cur@, acc@.map_values(|l: Vec<u8>| l@)) == spec_lines(
                s@,
            ),
        decreases s@.len() - i,
    {
        let ghost pi = i as int;
        let ghost pc = cur@;
        let ghost pa = acc@.map_values(|l: Vec<u8>| l@);
        let b = s[i];
        if b == 10 {
            let done = cur;
            cur = Vec::new();
            acc.push(done);
            proof {
                assert(acc@.map_values(|l: Vec<u8>| l@) =~= pa.push(pc));
                assert(cur@ =~= Seq::<u8>::empty());
            }
        } else {
            cur.push(b);
        }
        i = i + 1;
        proof {
            assert(lines_from(s@, pi, pc, pa) == lines_from(
                s@,
                i as int,
                cur@,
                acc@.map_values(|l: Vec<u8>| l@),
            ));
        }
    }
    if cur.len() > 0 {
        let ghost pc = cur@;
        let ghost pa = acc@.map_values(|l: Vec<u8>| l@);
        acc.push(cur);
        proof {
            assert(acc@.map_values(|l: Vec<u8>| l@) =~= pa.push(pc));
        }
    }
    acc
}

/// A line that holds anything beyond whitespace.
pub open spec fn line_has_content(l: Seq<u8>) -> bool {
    exists|k: int| 0 <= k < l.len() && !is_ws(#[trigger] l[k])
}

/// The lines with content, as the device probes count them.
pub open spec fn content_lines(ls: Seq<Seq<u8>>) -> Seq<Seq<u8>> {
    ls.filter(|l: Seq<u8>| line_has_content(l))
}

/// Count the non-blank lines of a probe's output (one device listing per
/// line).
pub fn count_nonempty_lines(s: &str) -> (r: usize)
    ensures
        r == content_lines(spec_lines(s.spec_bytes())).len(),
{
    let lines = split_lines(s.as_bytes());
    let ghost lv = lines@.map_values(|l: Vec<u8>| l@);
    let mut count: usize = 0;
    let mut i: usize = 0;
    proof {
        assert(lv.take(0) =~= Seq::<Seq<u8>>::empty());
        assert(content_lines(lv.take(0)) =~= Seq::<Seq<u8>>::empty());
    }
    while i < lines.len()
        invariant
            i <= lines@.len(),
            lv == lines@.map_values(|l: Vec<u8>| l@),
            count == content_lines(lv.take(i as int)).len(),
            count <= i,
        decreases lines@.len() - i,
    {
        let l = &lines[i];
        let mut has = false;
        let mut k: usize = 0;
        while k < l.len()
            invariant
                k <= l@.len(),
                has == exists|m: int| 0 <= m < k && !is_ws(#[trigger] l@[m]),
            decreases l@.len() - k,
        {
            if !(l[k] == 32 || l[k] == 9 || l[k] == 10 || l[k] == 13) {
                has = true;
            }
            k = k + 1;
        }
        assert(has == line_has_content(l@));
        if has {
            count = count + 1;
        }
        i = i + 1;
        proof {
            broadcast use vstd::prelude::Seq::lemma_filter_push;

            assert(lv.take(i as int) =~= lv.take(i - 1).push(lv[i - 1]));
            assert(lv[i - 1] == l@);
        }
    }
    proof {
        assert(lv.take(lv.len() as int) =~= lv);
    }
    count
}

/// At most the first `max` elements.
pub open spec fn take_at_most(ls: Seq<Seq<u8>>, max: int) -> Seq<Seq<u8>> {
    if ls.len() <= max {
        ls
    } else {
        ls.take(max)
    }
}

/// Lines joined with `; `, as a failure excerpt reads.
pub open spec fn spec_join_excerpt(ls: Seq<Seq<u8>>) -> Seq<u8>
    decreases ls.len(),
{
    if ls.len() == 0 {
        Seq::empty()
    } else if ls.len() == 1 {
        ls[0]
    } else {
        spec_join_excerpt(ls.drop_last()) + seq![59u8, 32u8] + ls.last()
    }
}

/// The canonical needles that make a tool's output line error-looking.
pub open spec fn spec_error_needles() -> Seq<Seq<u8>> {
    seq![
        seq![101u8, 114u8, 114u8, 111u8, 114u8],
        seq![69u8, 114u8, 114u8, 111u8, 114u8],
        seq![69u8, 82u8, 82u8, 79u8, 82u8],
        seq![70u8, 97u8, 105u8, 108u8, 101u8, 100u8],
    ]
}

/// The needles `error`, `Error`, `ERROR` and `Failed`.
pub fn error_needles() -> (r: Vec<Vec<u8>>)
    ensures
        r@.map_values(|n: Vec<u8>| n@) == spec_error_needles(),
{
    let mut r: Vec<Vec<u8>> = Vec::new();
    let a: Vec<u8> = vec![101u8, 114u8, 114u8, 111u8, 114u8];
    let b: Vec<u8> = vec![69u8, 114u8, 114u8, 111u8, 114u8];
    let c: Vec<u8> = vec![69u8, 82u8, 82u8, 79u8, 82u8];
    let d: Vec<u8> = vec![70u8, 97u8, 105u8, 108u8, 101u8, 100u8];
    r.push(a);
    r.push(b);
    r.push(c);
    r.push(d);
    proof {
        assert(r@.map_values(|n: Vec<u8>| n@) =~= spec_error_needles());
    }
    r
}

/// The lines holding any of the given needles, as the device probes count
/// them (a listing line names the device kind it reports).
pub open spec fn matching_lines(ls: Seq<Seq<u8>>, needles: Seq<Seq<u8>>) -> Seq<Seq<u8>> {
    ls.filter(
        |l: Seq<u8>|
            exists|n: int| 0 <= n < needles.len() && contains_seq(l, #[trigger] needles[n]),
    )
}

/// Count the lines of a probe's output that hold any of the needles.
pub fn count_lines_matching(s: &str, needles: &Vec<Vec<u8>>) -> (r: usize)
    ensures
        r == matching_lines(
            spec_lines(s.spec_bytes()),
            needles@.map_values(|n: Vec<u8>| n@),
        ).len(),
{
    let ghost nv = needles@.map_values(|n: Vec<u8>| n@);
    let lines = split_lines(s.as_bytes());
    let ghost lv = lines@.map_values(|l: Vec<u8>| l@);
    let mut count: usize = 0;
    let mut i: usize = 0;
    proof {
        assert(lv.take(0) =~= Seq::<Seq<u8>>::empty());
        assert(matching_lines(lv.take(0), nv) =~= Seq::<Seq<u8>>::empty());
    }
    while i < lines.len()
        invariant
            i <= lines@.len(),
            lv == lines@.map_values(|l: Vec<u8>| l@),
            nv == needles@.map_values(|n: Vec<u8>| n@),
            count == matching_lines(lv.take(i as int), nv).len(),
            count <= i,
        decreases lines@.len() - i,
    {
        let l = &lines[i];
        let mut hit = false;
        let mut k: usize = 0;
        while k < needles.len()
            invariant
                k <= needles@.len(),
                nv == needles@.map_values(|n: Vec<u8>| n@),
                lv == lines@.map_values(|l2: Vec<u8>| l2@),
                i < lines@.len(),
                l@ == lines@[i as int]@,
                hit == exists|m: int|
                    0 <= m < k && contains_seq(lines@[i as int]@, #[trigger] nv[m]),
            decreases needles@.len() - k,
        {
            proof {
                assert(nv[k as int] == needles@[k as int]@);
                assert(lines@[i as int]@ == l@);
            }
            if crate::bytes::contains_bytes(l.as_slice(), needles[k].as_slice()) {
                assert(contains_seq(lines@[i as int]@, nv[k as int]));
                hit = true;
            } else {
                assert(!contains_seq(lines@[i as int]@, nv[k as int]));
            }
            k = k + 1;
        }
        if hit {
            count = count + 1;
        }
        i = i + 1;
        proof {
            broadcast use vstd::prelude::Seq::lemma_filter_push;

            assert(lv.take(i as int) =~= lv.take(i - 1).push(lv[i - 1]));
            assert(lv[i - 1] == lines@[i - 1]@);
        }
    }
    proof {
        assert(lv.take(lv.len() as int) =~= lv);
    }
    count
}

/// The failure excerpt of a tool's output: its first `max` error-looking
/// lines (those holding any needle), joined with `; `.
pub fn error_line_excerpt(s: &str, needles: &Vec<Vec<u8>>, max: usize) -> (r: Vec<u8>)
    ensures
        r@ == spec_join_excerpt(
            take_at_most(
                matching_lines(
                    spec_lines(s.spec_bytes()),
                    needles@.map_values(|n: Vec<u8>| n@),
                ),
                max as int,
            ),
        ),
{
    let ghost nv = needles@.map_values(|n: Vec<u8>| n@);
    let lines = split_lines(s.as_bytes());
    let ghost lv = lines@.map_values(|l: Vec<u8>| l@);
    let mut selected: Vec<Vec<u8>> = Vec::new();
    let mut i: usize = 0;
    proof {
        assert(lv.take(0) =~= Seq::<Seq<u8>>::empty());
        assert(matching_lines(lv.take(0), nv) =~= Seq::<Seq<u8>>::empty());
        assert(selected@.map_values(|l: Vec<u8>| l@) =~= take_at_most(
            matching_lines(lv.take(0), nv),
            max as int,
        ));
    }
    while i < lines.len()
        invariant
            i <= lines@.len(),
            lv == lines@.map_values(|l: Vec<u8>| l@),
            nv == needles@.map_values(|n: Vec<u8>| n@),
            selected@.len() <= max,
            selected@.len() <= matching_lines(lv.take(i as int), nv).len(),
            selected@.map_values(|l: Vec<u8>| l@) == take_at_most(
                matching_lines(lv.take(i as int), nv),
                max as int,
            ),
        decreases lines@.len() - i,
    {
        let l = &lines[i];
        let mut hit = false;
        let mut k: usize = 0;
        while k < needles.len()
            invariant
                k <= needles@.len(),
                nv == needles@.map_values(|n: Vec<u8>| n@),
                lv == lines@.map_values(|l2: Vec<u8>| l2@),
                i < lines@.len(),
                l@ == lines@[i as int]@,
                hit == exists|m: int|
                    0 <= m < k && contains_seq(lines@[i as int]@, #[trigger] nv[m]),
            decreases needles@.len() - k,
        {
            proof {
                assert(nv[k as int] == needles@[k as int]@);
            }
            if crate::bytes::contains_bytes(l.as_slice(), needles[k].as_slice()) {
                assert(contains_seq(lines@[i as int]@, nv[k as int]));
                hit = true;
            } else {
                assert(!contains_seq(lines@[i as int]@, nv[k as int]));
            }
            k = k + 1;
        }
        let ghost prev_sel = selected@.map_values(|l2: Vec<u8>| l2@);
        let ghost prev_matching = matching_lines(lv.take(i as int), nv);
        if hit && selected.len() < max {
            selected.push(crate::bytes::clone_bytes(l));
        }
        i = i + 1;
        proof {
            broadcast use vstd::prelude::Seq::lemma_filter_push;

            assert(lv.take(i as int) =~= lv.take(i - 1).push(lv[i - 1]));
            assert(lv[i - 1] == lines@[i - 1]@);
            let now_matching = matching_lines(lv.take(i as int), nv);
            if hit {
                assert(now_matching == prev_matching.push(lv[i - 1]));
                if prev_sel.len() < max {
                    assert(prev_matching.len() < max);
                    assert(take_at_most(now_matching, max as int) =~= prev_sel.push(
                        lv[i - 1],
                    ));
                    assert(selected@.map_values(|l2: Vec<u8>| l2@) =~= prev_sel.push(
                        lv[i - 1],
                    ));
                } else {
                    assert(prev_matching.len() >= max);
                    assert(take_at_most(now_matching, max as int) =~= take_at_most(
                        prev_matching,
                        max as int,
                    ));
                }
            } else {
                assert(now_matching == prev_matching);
            }
        }
    }
    proof {
        assert(lv.take(lv.len() as int) =~= lv);
    }
    // join the selected lines with `; `
    let ghost sv = selected@.map_values(|l2: Vec<u8>| l2@);
    let mut out: Vec<u8> = Vec::new();
    let mut i: usize = 0;
    proof {
        assert(out@ =~= spec_join_excerpt(sv.take(0)));
    }
    while i < selected.len()
        invariant
            i <= selected@.len(),
            sv == selected@.map_values(|l2: Vec<u8>| l2@),
            out@ == spec_join_excerpt(sv.take(i as int)),
        decreases selected@.len() - i,
    {
        if i > 0 {
            out.push(59);
            out.push(32);
        }
        let l = &selected[i];
        let mut k: usize = 0;
        let ghost mid = out@;
        while k < l.len()
            invariant
                k <= l@.len(),
                out@ == mid + l@.take(k as int),
            decreases l@.len() - k,
        {
            out.push(l[k]);
            k = k + 1;
            assert(out@ =~= mid + l@.take(k as int));
        }
        assert(l@.take(l@.len() as int) =~= l@);
        i = i + 1;
        proof {
            assert(sv.take(i as int).drop_last() =~= sv.take(i - 1));
            assert(sv.take(i as int).last() == sv[i - 1]);
            assert(sv[i - 1] == l@);
            if i == 1 {
                assert(out@ =~= spec_join_excerpt(sv.take(1)));
            } else {
                assert(out@ =~= spec_join_excerpt(sv.take(i - 1)) + seq![59u8, 32u8] + l@);
            }
        }
    }
    proof {
        assert(sv.take(sv.len() as int) =~= sv);
    }
    out
}

} // verus!
