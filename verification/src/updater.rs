//! Root-partition bookkeeping for the dual-partition update scheme.
//!
//! The kernel command line names the active root partition in a
//! `root=<device>` option; updates are written to whichever of the two
//! root partitions is currently unused, and the two are swapped by
//! rewriting that option.

use vstd::prelude::*;

verus! {

/// The space byte that separates kernel command line options.
pub const SPACE: u8 = 32;

/// The path separator byte.
pub const SLASH: u8 = 47;

/// Length of the option prefix `root=`.
pub const ROOT_PREFIX_LEN: usize = 5;

/// The bytes of `root=`.
pub open spec fn root_prefix() -> Seq<u8> {
    seq![114u8, 111u8, 111u8, 116u8, 61u8]
}

/// The bytes of the first root partition's device name, `mmcblk0p2`.
pub open spec fn part2_name() -> Seq<u8> {
    seq![109u8, 109u8, 99u8, 98u8, 108u8, 107u8, 48u8, 112u8, 50u8]
}

/// The bytes of the second root partition's device name, `mmcblk0p3`.
pub open spec fn part3_name() -> Seq<u8> {
    seq![109u8, 109u8, 99u8, 98u8, 108u8, 107u8, 48u8, 112u8, 51u8]
}

/// Length of the current option: the bytes before the first space.
pub open spec fn token_end(s: Seq<u8>) -> int
    decreases s.len(),
{
    if s.len() == 0 {
        0
    } else if s[0] == SPACE {
        0
    } else {
        1 + token_end(s.skip(1))
    }
}

/// Whether an option token starts with `root=`.
pub open spec fn is_root_option(t: Seq<u8>) -> bool {
    t.len() >= ROOT_PREFIX_LEN && t.subrange(0, ROOT_PREFIX_LEN as int) == root_prefix()
}

/// The value of the first `root=` option among the space-separated options
/// of a kernel command line: the bytes of that option after its first `=`.
pub open spec fn spec_parse_root(s: Seq<u8>) -> Option<Seq<u8>>
    decreases s.len(),
    via spec_parse_root_decreases
{
    let t = s.take(token_end(s));
    if is_root_option(t) {
        Some(t.skip(ROOT_PREFIX_LEN as int))
    } else if token_end(s) < s.len() {
        spec_parse_root(s.skip(token_end(s) + 1))
    } else {
        None
    }
}

#[via_fn]
proof fn spec_parse_root_decreases(s: Seq<u8>) {
    lemma_token_end_bounds(s);
}

/// The current option always lies within the command line.
proof fn lemma_token_end_bounds(s: Seq<u8>)
    ensures
        0 <= token_end(s) <= s.len(),
    decreases s.len(),
{
    if s.len() > 0 && s[0] != SPACE {
        lemma_token_end_bounds(s.skip(1));
    }
}

/// `token_end` is exactly the scan that stops at the first space.
proof fn lemma_token_end(s: Seq<u8>, m: int)
    requires
        0 <= m <= s.len(),
        forall|q: int| 0 <= q < m ==> s[q] != SPACE,
        m < s.len() ==> s[m] == SPACE,
    ensures
        token_end(s) == m,
    decreases s.len(),
{
    if s.len() == 0 {
    } else if s[0] == SPACE {
        assert(m == 0);
    } else {
        assert(m >= 1);
        lemma_token_end(s.skip(1), m - 1);
    }
}

/// Start of the file name in a path: the position after the last separator
/// byte, or 0 where the path has none.
pub open spec fn file_name_start(s: Seq<u8>) -> int
    decreases s.len(),
{
    if s.len() == 0 {
        0
    } else if s[s.len() - 1] == SLASH {
        s.len() as int
    } else {
        file_name_start(s.take(s.len() - 1))
    }
}

/// `file_name_start` is exactly the scan backwards to the last separator.
proof fn lemma_file_name_start(s: Seq<u8>, m: int)
    requires
        0 <= m <= s.len(),
        forall|q: int| m <= q < s.len() ==> s[q] != SLASH,
        m > 0 ==> s[m - 1] == SLASH,
    ensures
        file_name_start(s) == m,
    decreases s.len(),
{
    if s.len() == 0 {
    } else if s[s.len() - 1] == SLASH {
        assert(m == s.len());
    } else {
        assert(m < s.len());
        lemma_file_name_start(s.take(s.len() - 1), m);
    }
}

/// The root partition that is not mounted: the same path with the other of
/// the two device names, or nothing when the current device is neither.
pub open spec fn spec_unused_rootfs(current: Seq<u8>) -> Option<Seq<u8>> {
    let start = file_name_start(current);
    let name = current.skip(start);
    if name == part2_name() {
        Some(current.take(start) + part3_name())
    } else if name == part3_name() {
        Some(current.take(start) + part2_name())
    } else {
        None
    }
}

/// The current root partition cannot be swapped: its device name is not
/// one of the two root partitions of the update scheme.
#[derive(Copy, Clone, PartialEq, Eq, Structural, Debug)]
pub enum PartitionError {
    UnknownPartition,
}

/// Extracts the `root=` option's value from a kernel command line, as
/// the original bytes of the first such option after its `root=` prefix.
pub fn parse_cmdline_root(kernel_cmdline: &Vec<u8>) -> (r: Option<Vec<u8>>)
    ensures
        r.deep_view() == spec_parse_root(kernel_cmdline@),
{
    let n: usize = kernel_cmdline.len();
    let mut start: usize = 0;
    assert(kernel_cmdline@.skip(0) =~= kernel_cmdline@);
    loop
        invariant
            start <= n,
            n == kernel_cmdline@.len(),
            spec_parse_root(kernel_cmdline@) == spec_parse_root(kernel_cmdline@.skip(start as int)),
        decreases n - start,
    {
        let ghost s = kernel_cmdline@.skip(start as int);
        let mut end: usize = start;
        while end < n && kernel_cmdline[end] != SPACE
            invariant
                start <= end <= n,
                n == kernel_cmdline@.len(),
                forall|q: int| start <= q < end ==> kernel_cmdline@[q] != SPACE,
            decreases n - end,
        {
            end = end + 1;
        }
        proof {
            lemma_token_end(s, end - start);
        }
        let token_len: usize = end - start;
        let is_root: bool = token_len >= ROOT_PREFIX_LEN && kernel_cmdline[start] == 114
            && kernel_cmdline[start + 1] == 111 && kernel_cmdline[start + 2] == 111
            && kernel_cmdline[start + 3] == 116 && kernel_cmdline[start + 4] == 61;
        proof {
            assert(s.take(token_len as int) =~= kernel_cmdline@.subrange(
                start as int,
                end as int,
            ));
            if is_root {
                assert(s.take(token_len as int).subrange(0, ROOT_PREFIX_LEN as int)
                    =~= root_prefix());
            } else if token_len >= ROOT_PREFIX_LEN {
                assert(!(s.take(token_len as int).subrange(0, ROOT_PREFIX_LEN as int)
                    =~= root_prefix()));
            }
        }
        if is_root {
            let mut value: Vec<u8> = Vec::new();
            let mut i: usize = start + ROOT_PREFIX_LEN;
            while i < end
                invariant
                    start + ROOT_PREFIX_LEN <= i <= end,
                    end <= n == kernel_cmdline@.len(),
                    value@ =~= kernel_cmdline@.subrange(start + ROOT_PREFIX_LEN, i as int),
                decreases end - i,
            {
                value.push(kernel_cmdline[i]);
                assert(value@ =~= kernel_cmdline@.subrange(start + ROOT_PREFIX_LEN, i + 1));
                i = i + 1;
            }
            assert(value@ =~= s.take(token_len as int).skip(ROOT_PREFIX_LEN as int));
            return Some(value);
        }
        if end < n {
            proof {
                assert(s.skip(token_len + 1) =~= kernel_cmdline@.skip(end + 1));
            }
            start = end + 1;
        } else {
            return None;
        }
    }
}

/// Names the unused root partition: the current one's path with the other
/// device name, `mmcblk0p2` and `mmcblk0p3` standing in for one another.
pub fn unused_rootfs_partition(current: &Vec<u8>) -> (r: Result<Vec<u8>, PartitionError>)
    ensures
        match r {
            Ok(v) => spec_unused_rootfs(current@) == Some(v@),
            Err(e) => spec_unused_rootfs(current@) is None && e == PartitionError::UnknownPartition,
        },
{
    let n: usize = current.len();
    let mut start: usize = n;
    while start > 0 && current[start - 1] != SLASH
        invariant
            start <= n,
            n == current@.len(),
            forall|q: int| start <= q < n ==> current@[q] != SLASH,
        decreases start,
    {
        start = start - 1;
    }
    proof {
        lemma_file_name_start(current@, start as int);
    }
    let name_len: usize = n - start;
    let swaps_to_part3: bool = name_matches_part(current, start, 50);
    let swaps_to_part2: bool = name_matches_part(current, start, 51);
    proof {
        assert(current@.skip(start as int) =~= current@.subrange(start as int, n as int));
    }
    if !swaps_to_part3 && !swaps_to_part2 {
        return Err(PartitionError::UnknownPartition);
    }
    let mut swapped: Vec<u8> = Vec::new();
    let mut i: usize = 0;
    while i < start
        invariant
            i <= start <= n,
            n == current@.len(),
            swapped@ =~= current@.subrange(0, i as int),
        decreases start - i,
    {
        swapped.push(current[i]);
        assert(swapped@ =~= current@.subrange(0, i + 1));
        i = i + 1;
    }
    assert(swapped@ =~= current@.take(start as int));
    swapped.push(109);
    swapped.push(109);
    swapped.push(99);
    swapped.push(98);
    swapped.push(108);
    swapped.push(107);
    swapped.push(48);
    swapped.push(112);
    if swaps_to_part3 {
        swapped.push(51);
        assert(swapped@ =~= current@.take(start as int) + part3_name());
    } else {
        swapped.push(50);
        assert(swapped@ =~= current@.take(start as int) + part2_name());
    }
    Ok(swapped)
}

/// Whether the bytes from `start` on are `mmcblk0p` followed by the given
/// final digit byte.
fn name_matches_part(current: &Vec<u8>, start: usize, last: u8) -> (r: bool)
    requires
        start <= current@.len(),
    ensures
        r == (current@.subrange(start as int, current@.len() as int) == seq![
            109u8,
            109u8,
            99u8,
            98u8,
            108u8,
            107u8,
            48u8,
            112u8,
            last,
        ]),
{
    let n: usize = current.len();
    let r: bool = n - start == 9 && current[start] == 109 && current[start + 1] == 109
        && current[start + 2] == 99 && current[start + 3] == 98 && current[start + 4] == 108
        && current[start + 5] == 107 && current[start + 6] == 48 && current[start + 7] == 112
        && current[start + 8] == last;
    proof {
        let name = current@.subrange(start as int, n as int);
        let want = seq![109u8, 109u8, 99u8, 98u8, 108u8, 107u8, 48u8, 112u8, last];
        if r {
            assert(name =~= want);
        } else {
            if name.len() == want.len() {
                assert(!(name =~= want));
            }
        }
    }
    r
}

} // verus!
