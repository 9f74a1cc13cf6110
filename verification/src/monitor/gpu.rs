//! Graphics cards: vendors, and the process listings their tools print.
use vstd::prelude::*;
use crate::num::{parse_uint, parse_unsigned};
use crate::text::{chars_eq, chars_of, contains, has_prefix, has_sub, lines, starts_with, pieces, split_char, split_lines, string_of_all, trim, trim_chars, views_of};

verus! {

/// Who made a graphics card.
#[derive(Debug, Clone, Copy, PartialEq, Eq, Structural)]
pub enum GPUVendor {
    NVIDIA,
    AMD,
    Intel,
    Unknown,
}

/// What a process uses a graphics card for.
#[derive(Debug, Clone, Copy, PartialEq, Eq, Structural)]
pub enum GPUProcessType {
    Graphics,
    Compute,
    Mixed,
    Unknown,
}

/// A process in an `nvidia-smi` listing: its pid, name and memory in bytes.
#[derive(Debug, Clone)]
pub struct GpuProcessRow {
    pub pid: u32,
    pub process_name: String,
    pub memory_usage: u64,
}

/// A decimal field read as a number no larger than `max`, else 0.
pub open spec fn number_or_zero(t: Seq<char>, max: nat) -> nat {
    match parse_unsigned(t, 10, max) {
        Some(n) => n,
        None => 0,
    }
}

/// The trimmed comma-separated fields of a line.
pub open spec fn csv_fields(l: Seq<char>) -> Seq<Seq<char>> {
    Seq::new(pieces(l, ',').len(), |i: int| trim(pieces(l, ',')[i]))
}

/// The processes of `nvidia-smi --query-...=pid,process_name,used_memory
/// --format=csv,noheader,nounits`: each line with three fields or more gives the pid
/// (0 where it does not read), the name, and the memory in MiB turned into bytes.
pub open spec fn gpu_rows(ls: Seq<Seq<char>>) -> Seq<(nat, Seq<char>, nat)>
    decreases ls.len(),
{
    if ls.len() == 0 {
        Seq::empty()
    } else {
        let init = gpu_rows(ls.drop_last());
        let f = csv_fields(ls.last());
        if f.len() >= 3 {
            init.push((number_or_zero(f[0], u32::MAX as nat), f[1], number_or_zero(f[2], u64::MAX as nat) * 1048576))
        } else {
            init
        }
    }
}

/// The memory of every process row fits a `u64` in bytes.
pub open spec fn gpu_memory_fits(ls: Seq<Seq<char>>) -> bool {
    forall|i: int| 0 <= i < ls.len() ==> {
        let f = #[trigger] csv_fields(ls[i]);
        f.len() >= 3 ==> number_or_zero(f[2], u64::MAX as nat) * 1048576 <= u64::MAX
    }
}

/// `p` holds the row `row`.
pub open spec fn gpu_row_is(p: GpuProcessRow, row: (nat, Seq<char>, nat)) -> bool {
    p.pid == row.0 && p.process_name@ == row.1 && p.memory_usage == row.2
}

/// The processes of an `nvidia-smi` process listing (see `gpu_rows`).
pub fn parse_nvidia_processes(output: &str) -> (r: Vec<GpuProcessRow>)
    requires
        gpu_memory_fits(lines(output@)),
    ensures
        r@.len() == gpu_rows(lines(output@)).len(),
        forall|k: int| 0 <= k < r@.len() ==> gpu_row_is(#[trigger] r@[k], gpu_rows(lines(output@))[k]),
{
    let v = chars_of(output);
    let ls = split_lines(&v);
    let ghost all = lines(output@);
    let mut r: Vec<GpuProcessRow> = Vec::new();
    let mut i: usize = 0;
    while i < ls.len()
        invariant
            i <= ls@.len(),
            views_of(ls@) == all,
            gpu_memory_fits(all),
            r@.len() == gpu_rows(all.take(i as int)).len(),
            forall|k: int| 0 <= k < r@.len() ==> gpu_row_is(#[trigger] r@[k], gpu_rows(all.take(i as int))[k]),
        decreases ls.len() - i,
    {
        assert(all.take(i + 1).drop_last() == all.take(i as int));
        assert(all.take(i + 1).last() == ls@[i as int]@);
        let parts = split_char(&ls[i], ',');
        if parts.len() >= 3 {
            let ghost f = csv_fields(ls@[i as int]@);
            assert(views_of(parts@)[0] == parts@[0]@);
            assert(views_of(parts@)[1] == parts@[1]@);
            assert(views_of(parts@)[2] == parts@[2]@);
            let p0 = trim_chars(&parts[0]);
            let p1 = trim_chars(&parts[1]);
            let p2 = trim_chars(&parts[2]);
            assert(p0@ == f[0] && p1@ == f[1] && p2@ == f[2]);
            let pid: u32 = match parse_uint(&p0, 10, 0xffff_ffff) {
                Some(n) => n as u32,
                None => 0,
            };
            let mib: u64 = match parse_uint(&p2, 10, u64::MAX) {
                Some(n) => n,
                None => 0,
            };
            assert(csv_fields(all[i as int]).len() >= 3);
            r.push(GpuProcessRow { pid, process_name: string_of_all(&p1), memory_usage: mib * 1024 * 1024 });
        }
        i = i + 1;
    }
    assert(all.take(i as int) == all);
    r
}

/// A `/sys/class/drm` entry is a card: its name starts with `card` and has no `-`.
pub open spec fn is_card_name(name: Seq<char>) -> bool {
    starts_with(name, "card"@) && !contains(name, "-"@)
}

/// Whether the `/sys/class/drm` entry `name` is a card (see `is_card_name`).
pub fn is_card_entry(name: &str) -> (r: bool)
    ensures
        r == is_card_name(name@),
{
    let v = chars_of(name);
    proof {
        reveal_strlit("card");
        reveal_strlit("-");
    }
    let card: [char; 4] = ['c', 'a', 'r', 'd'];
    let dash: [char; 1] = ['-'];
    assert(card@ == "card"@ && dash@ == "-"@);
    has_prefix(&v, &card) && !has_sub(&v, &dash)
}

/// The vendor a PCI vendor id file names, once trimmed: `0x1002` is AMD, `0x8086` is
/// Intel; other ids name none.
pub open spec fn vendor_named(id: Seq<char>) -> Option<GPUVendor> {
    let t = trim(id);
    if t == "0x1002"@ {
        Some(GPUVendor::AMD)
    } else if t == "0x8086"@ {
        Some(GPUVendor::Intel)
    } else {
        None
    }
}

/// The vendor a card's `device/vendor` file names (see `vendor_named`).
pub fn vendor_from_id(id_text: &str) -> (r: Option<GPUVendor>)
    ensures
        r == vendor_named(id_text@),
{
    let v = chars_of(id_text);
    let t = trim_chars(&v);
    proof {
        reveal_strlit("0x1002");
        reveal_strlit("0x8086");
    }
    let amd: [char; 6] = ['0', 'x', '1', '0', '0', '2'];
    let intel: [char; 6] = ['0', 'x', '8', '0', '8', '6'];
    assert(amd@ == "0x1002"@ && intel@ == "0x8086"@);
    if chars_eq(&t, &amd) {
        Some(GPUVendor::AMD)
    } else if chars_eq(&t, &intel) {
        Some(GPUVendor::Intel)
    } else {
        None
    }
}

/// The vendors whose tools were found, in the order NVIDIA, AMD, Intel.
pub fn get_supported_vendors(nvidia: bool, amd: bool, intel: bool) -> (r: Vec<GPUVendor>)
    ensures
        r@ == (if nvidia { seq![GPUVendor::NVIDIA] } else { Seq::empty() }) + (if amd {
            seq![GPUVendor::AMD]
        } else {
            Seq::empty()
        }) + (if intel { seq![GPUVendor::Intel] } else { Seq::empty() }),
{
    let mut r: Vec<GPUVendor> = Vec::new();
    if nvidia {
        r.push(GPUVendor::NVIDIA);
    }
    if amd {
        r.push(GPUVendor::AMD);
    }
    if intel {
        r.push(GPUVendor::Intel);
    }
    assert(r@ =~= (if nvidia { seq![GPUVendor::NVIDIA] } else { Seq::empty() }) + (if amd {
        seq![GPUVendor::AMD]
    } else {
        Seq::empty()
    }) + (if intel { seq![GPUVendor::Intel] } else { Seq::empty() }));
    r
}

} // verus!
