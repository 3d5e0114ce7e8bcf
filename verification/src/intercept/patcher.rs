//! What the patcher decides: which syscall sites to rewrite, where their
//! trampolines go, and when a live site still holds what was decoded.
//!
//! The patcher rewrites selected syscall instructions already mapped into
//! the process: each accepted site gets a private trampoline in a region
//! allocated near it, and the site itself is replaced by a short branch to
//! that trampoline. The mapping, protection changes and byte copies are
//! done by the caller; this module computes every value they use.
use vstd::prelude::*;
use vstd::string::*;

verus! {

/// `PROT_READ | PROT_EXEC`: the protection of ordinary text pages.
pub const PROT_READ_EXEC: i32 = 5;
/// The most bytes one site's branch may replace.
pub const MAX_PATCH_SIZE: usize = 32;
/// Trampolines start on 16-byte boundaries.
pub const TRAMPOLINE_ALIGNMENT: usize = 16;

/// One syscall instruction that can be replaced by a branch.
#[derive(Debug, Clone)]
pub struct PatchSite {
    /// Live address at which the syscall instruction begins.
    pub address: usize,
    /// Number of bytes the branch instruction replaces.
    pub overwrite_length: usize,
    /// Complete instructions after the syscall that must run in the trampoline.
    pub displaced: Vec<u8>,
    /// Page protection restored after writing the replacement branch.
    pub restore_protection: i32,
}

impl PatchSite {
    /// A copy of this site.
    pub fn copy(&self) -> (copy: Self)
        ensures
            copy.address == self.address,
            copy.overwrite_length == self.overwrite_length,
            copy.displaced@ == self.displaced@,
            copy.restore_protection == self.restore_protection,
    {
        PatchSite {
            address: self.address,
            overwrite_length: self.overwrite_length,
            displaced: vstd::slice::slice_to_vec(self.displaced.as_slice()),
            restore_protection: self.restore_protection,
        }
    }
}

pub open spec fn spec_align_up(value: int, alignment: int) -> int {
    (value + alignment - 1) / alignment * alignment
}

/// Rounds `value` up to a multiple of the power-of-two `alignment`.
pub fn align_up(value: usize, alignment: usize) -> (aligned: usize)
    requires
        alignment == TRAMPOLINE_ALIGNMENT,
        value + alignment - 1 <= usize::MAX,
    ensures
        aligned == spec_align_up(value as int, alignment as int),
        aligned % 16 == 0,
        value <= aligned < value + 16,
{
    (value + 15) / 16 * 16
}

/// Rounds `value` up to a multiple of the power-of-two `alignment`, or
/// `None` when that overflows.
pub fn align_up_checked(value: usize, alignment: usize) -> (aligned: Option<usize>)
    requires
        alignment >= 1,
        alignment & (alignment - 1) as usize == 0,
    ensures
        match aligned {
            None => value + alignment - 1 > usize::MAX,
            Some(a) => {
                &&& value + alignment - 1 <= usize::MAX
                &&& a == (value + alignment - 1) as usize & !((alignment - 1) as usize)
                &&& a & ((alignment - 1) as usize) == 0
                &&& value <= a < value + alignment
            },
        },
{
    match value.checked_add(alignment - 1) {
        None => None,
        Some(sum) => {
            let mask: usize = !(alignment - 1);
            let a: usize = sum & mask;
            proof {
                lemma_align_mask(sum, alignment, value);
            }
            Some(a)
        },
    }
}

/// Clearing the low bits of `value + alignment - 1` rounds `value` up.
proof fn lemma_align_mask(sum: usize, alignment: usize, value: usize)
    requires
        alignment >= 1,
        alignment & (alignment - 1) as usize == 0,
        sum == value + alignment - 1,
    ensures
        (sum & !((alignment - 1) as usize)) & ((alignment - 1) as usize) == 0,
        value <= (sum & !((alignment - 1) as usize)) < value + alignment,
{
    let a = alignment;
    let m = (a - 1) as usize;
    assert(a >= 1 && m == (a - 1) as usize ==> (sum & !m) == sum - (sum & m) && (sum & m) <= m && (sum & !m) & m
        == 0) by (bit_vector);
}

/// The names of the libc functions that issue the syscalls the tracer
/// monitors.
pub open spec fn monitored_names() -> Set<Seq<u8>> {
    set![
        "open".spec_bytes(), "open64".spec_bytes(), "openat".spec_bytes(), "openat64".spec_bytes(), "__open".spec_bytes(), "__open64".spec_bytes(), "__open_2".spec_bytes(),
        "__open64_2".spec_bytes(), "__open_nocancel".spec_bytes(), "__open64_nocancel".spec_bytes(), "__openat_2".spec_bytes(), "__openat64_2".spec_bytes(),
        "access".spec_bytes(), "faccessat".spec_bytes(), "stat".spec_bytes(), "lstat".spec_bytes(), "fstatat".spec_bytes(), "statx".spec_bytes(), "getdents".spec_bytes(),
        "getdents64".spec_bytes(), "__getdents".spec_bytes(), "__getdents64".spec_bytes(), "execve".spec_bytes(), "execveat".spec_bytes(),
        "fspy_test_accelerated_openat".spec_bytes(),
    ]
}

pub open spec fn monitored_prefixes() -> Seq<Seq<u8>> {
    seq!["__xstat".spec_bytes(), "__lxstat".spec_bytes(), "__fxstatat".spec_bytes()]
}

pub open spec fn spec_is_monitored_symbol(name: Seq<u8>) -> bool {
    ||| monitored_names().contains(name)
    ||| exists|i: int| 0 <= i < 3 && name.len() >= monitored_prefixes()[i].len() && name.subrange(
        0,
        monitored_prefixes()[i].len() as int,
    ) == monitored_prefixes()[i]
}

/// Each libc wrapper of a monitored syscall is a monitored symbol, so its
/// syscall sites are patched.
pub proof fn lemma_monitored_wrappers()
    ensures
        spec_is_monitored_symbol("open".spec_bytes()),
        spec_is_monitored_symbol("open64".spec_bytes()),
        spec_is_monitored_symbol("openat".spec_bytes()),
        spec_is_monitored_symbol("openat64".spec_bytes()),
        spec_is_monitored_symbol("__open".spec_bytes()),
        spec_is_monitored_symbol("__open64".spec_bytes()),
        spec_is_monitored_symbol("__open_2".spec_bytes()),
        spec_is_monitored_symbol("__open64_2".spec_bytes()),
        spec_is_monitored_symbol("__open_nocancel".spec_bytes()),
        spec_is_monitored_symbol("__open64_nocancel".spec_bytes()),
        spec_is_monitored_symbol("__openat_2".spec_bytes()),
        spec_is_monitored_symbol("__openat64_2".spec_bytes()),
        spec_is_monitored_symbol("access".spec_bytes()),
        spec_is_monitored_symbol("faccessat".spec_bytes()),
        spec_is_monitored_symbol("stat".spec_bytes()),
        spec_is_monitored_symbol("lstat".spec_bytes()),
        spec_is_monitored_symbol("fstatat".spec_bytes()),
        spec_is_monitored_symbol("statx".spec_bytes()),
        spec_is_monitored_symbol("getdents".spec_bytes()),
        spec_is_monitored_symbol("getdents64".spec_bytes()),
        spec_is_monitored_symbol("__getdents".spec_bytes()),
        spec_is_monitored_symbol("__getdents64".spec_bytes()),
        spec_is_monitored_symbol("execve".spec_bytes()),
        spec_is_monitored_symbol("execveat".spec_bytes()),
        spec_is_monitored_symbol("fspy_test_accelerated_openat".spec_bytes()),
{
}

/// UTF-8 takes at least one byte per character.
proof fn lemma_encoded_len_at_least_chars(chars: Seq<char>)
    ensures
        vstd::utf8::encode_utf8(chars).len() >= chars.len(),
    decreases chars.len(),
{
    if chars.len() > 0 {
        lemma_encoded_len_at_least_chars(chars.drop_first());
    }
}

/// No name shorter than the shortest wrapper (`open`, `stat`) is
/// monitored: in particular the empty name never is.
pub proof fn lemma_monitored_names_are_long_enough(name: Seq<u8>)
    ensures
        spec_is_monitored_symbol(name) ==> name.len() >= 4,
{
    reveal_strlit("open");
    lemma_encoded_len_at_least_chars("open"@);
    reveal_strlit("open64");
    lemma_encoded_len_at_least_chars("open64"@);
    reveal_strlit("openat");
    lemma_encoded_len_at_least_chars("openat"@);
    reveal_strlit("openat64");
    lemma_encoded_len_at_least_chars("openat64"@);
    reveal_strlit("__open");
    lemma_encoded_len_at_least_chars("__open"@);
    reveal_strlit("__open64");
    lemma_encoded_len_at_least_chars("__open64"@);
    reveal_strlit("__open_2");
    lemma_encoded_len_at_least_chars("__open_2"@);
    reveal_strlit("__open64_2");
    lemma_encoded_len_at_least_chars("__open64_2"@);
    reveal_strlit("__open_nocancel");
    lemma_encoded_len_at_least_chars("__open_nocancel"@);
    reveal_strlit("__open64_nocancel");
    lemma_encoded_len_at_least_chars("__open64_nocancel"@);
    reveal_strlit("__openat_2");
    lemma_encoded_len_at_least_chars("__openat_2"@);
    reveal_strlit("__openat64_2");
    lemma_encoded_len_at_least_chars("__openat64_2"@);
    reveal_strlit("access");
    lemma_encoded_len_at_least_chars("access"@);
    reveal_strlit("faccessat");
    lemma_encoded_len_at_least_chars("faccessat"@);
    reveal_strlit("stat");
    lemma_encoded_len_at_least_chars("stat"@);
    reveal_strlit("lstat");
    lemma_encoded_len_at_least_chars("lstat"@);
    reveal_strlit("fstatat");
    lemma_encoded_len_at_least_chars("fstatat"@);
    reveal_strlit("statx");
    lemma_encoded_len_at_least_chars("statx"@);
    reveal_strlit("getdents");
    lemma_encoded_len_at_least_chars("getdents"@);
    reveal_strlit("getdents64");
    lemma_encoded_len_at_least_chars("getdents64"@);
    reveal_strlit("__getdents");
    lemma_encoded_len_at_least_chars("__getdents"@);
    reveal_strlit("__getdents64");
    lemma_encoded_len_at_least_chars("__getdents64"@);
    reveal_strlit("execve");
    lemma_encoded_len_at_least_chars("execve"@);
    reveal_strlit("execveat");
    lemma_encoded_len_at_least_chars("execveat"@);
    reveal_strlit("fspy_test_accelerated_openat");
    lemma_encoded_len_at_least_chars("fspy_test_accelerated_openat"@);
    reveal_strlit("__xstat");
    lemma_encoded_len_at_least_chars("__xstat"@);
    reveal_strlit("__lxstat");
    lemma_encoded_len_at_least_chars("__lxstat"@);
    reveal_strlit("__fxstatat");
    lemma_encoded_len_at_least_chars("__fxstatat"@);
}

/// Every versioned `stat` entry point (names starting `__xstat`, `__lxstat`
/// or `__fxstatat`) is a monitored symbol, whatever follows the prefix.
pub proof fn lemma_monitored_stat_prefixes(suffix: Seq<u8>)
    ensures
        spec_is_monitored_symbol("__xstat".spec_bytes() + suffix),
        spec_is_monitored_symbol("__lxstat".spec_bytes() + suffix),
        spec_is_monitored_symbol("__fxstatat".spec_bytes() + suffix),
{
    let a = "__xstat".spec_bytes();
    let b = "__lxstat".spec_bytes();
    let c = "__fxstatat".spec_bytes();
    assert((a + suffix).subrange(0, a.len() as int) =~= a);
    assert((b + suffix).subrange(0, b.len() as int) =~= b);
    assert((c + suffix).subrange(0, c.len() as int) =~= c);
    assert(monitored_prefixes()[0] == a);
    assert(monitored_prefixes()[1] == b);
    assert(monitored_prefixes()[2] == c);
}

/// Whether `name` equals `expected`.
fn bytes_equal(name: &[u8], expected: &[u8]) -> (equal: bool)
    ensures
        equal == (name@ == expected@),
{
    if name.len() != expected.len() {
        return false;
    }
    let mut i: usize = 0;
    while i < name.len()
        invariant
            name@.len() == expected@.len(),
            0 <= i <= name@.len(),
            forall|k: int| 0 <= k < i ==> name@[k] == expected@[k],
        decreases name@.len() - i,
    {
        if name[i] != expected[i] {
            return false;
        }
        i = i + 1;
    }
    assert(name@ =~= expected@);
    true
}

/// Whether `name` starts with `prefix`.
fn starts_with(name: &[u8], prefix: &[u8]) -> (starts: bool)
    ensures
        starts == (name@.len() >= prefix@.len() && name@.subrange(0, prefix@.len() as int) == prefix@),
{
    if name.len() < prefix.len() {
        return false;
    }
    let mut i: usize = 0;
    while i < prefix.len()
        invariant
            name@.len() >= prefix@.len(),
            0 <= i <= prefix@.len(),
            forall|k: int| 0 <= k < i ==> name@[k] == prefix@[k],
        decreases prefix@.len() - i,
    {
        if name[i] != prefix[i] {
            assert(name@.subrange(0, prefix@.len() as int)[i as int] != prefix@[i as int]);
            return false;
        }
        i = i + 1;
    }
    assert(name@.subrange(0, prefix@.len() as int) =~= prefix@);
    true
}

/// Whether a function symbol named `name` may issue a monitored syscall.
pub fn is_monitored_symbol(name: &[u8]) -> (monitored: bool)
    ensures
        monitored == spec_is_monitored_symbol(name@),
{
    let names: [&str; 25] = [
        "open", "open64", "openat", "openat64", "__open", "__open64", "__open_2", "__open64_2",
        "__open_nocancel", "__open64_nocancel", "__openat_2", "__openat64_2", "access",
        "faccessat", "stat", "lstat", "fstatat", "statx", "getdents", "getdents64",
        "__getdents", "__getdents64", "execve", "execveat", "fspy_test_accelerated_openat",
    ];
    let mut found: bool = false;
    let mut i: usize = 0;
    while i < 25
        invariant
            0 <= i <= 25,
            found == exists|k: int| 0 <= k < i && name@ == names@[k].spec_bytes(),
        decreases 25 - i,
    {
        if bytes_equal(name, names[i].as_bytes()) {
            found = true;
        }
        i = i + 1;
    }
    let prefixes: [&str; 3] = ["__xstat", "__lxstat", "__fxstatat"];
    let mut prefixed: bool = false;
    let mut j: usize = 0;
    while j < 3
        invariant
            0 <= j <= 3,
            prefixed == exists|k: int|
                0 <= k < j && name@.len() >= prefixes@[k].spec_bytes().len() && name@.subrange(
                    0,
                    prefixes@[k].spec_bytes().len() as int,
                ) == prefixes@[k].spec_bytes(),
        decreases 3 - j,
    {
        if starts_with(name, prefixes[j].as_bytes()) {
            prefixed = true;
        }
        j = j + 1;
    }
    proof {
        assert(monitored_names() =~= Set::new(|n: Seq<u8>| exists|k: int| 0 <= k < 25 && n == names@[k].spec_bytes()));
        assert(monitored_prefixes() =~= Seq::new(3, |k: int| prefixes@[k].spec_bytes()));
    }
    found || prefixed
}

// --- Choosing the sites ------------------------------------------------------------

/// Whether a site's displaced range `[address + syscall_len,
/// address + overwrite_length)` holds none of the known branch targets.
pub open spec fn spec_site_clear_of_targets(address: int, overwrite_length: int, syscall_len: int, targets: Seq<usize>) -> bool {
    address + syscall_len <= usize::MAX && address + overwrite_length <= usize::MAX && forall|k: int|
        0 <= k < targets.len() ==> !(address + syscall_len <= #[trigger] targets[k] < address + overwrite_length)
}

/// Whether no known branch target lands inside the bytes a site's branch
/// replaces after its syscall instruction: jumping there after patching
/// would land inside the new branch.
pub fn site_clear_of_targets(site: &PatchSite, syscall_len: usize, targets: &[usize]) -> (clear: bool)
    ensures
        clear == spec_site_clear_of_targets(site.address as int, site.overwrite_length as int, syscall_len as int, targets@),
{
    let displaced_start: usize = match site.address.checked_add(syscall_len) {
        Some(start) => start,
        None => return false,
    };
    let displaced_end: usize = match site.address.checked_add(site.overwrite_length) {
        Some(end) => end,
        None => return false,
    };
    let mut k: usize = 0;
    while k < targets.len()
        invariant
            0 <= k <= targets@.len(),
            displaced_start == site.address + syscall_len,
            displaced_end == site.address + site.overwrite_length,
            forall|j: int| 0 <= j < k ==> !(displaced_start <= #[trigger] targets@[j] < displaced_end),
        decreases targets@.len() - k,
    {
        if displaced_start <= targets[k] && targets[k] < displaced_end {
            return false;
        }
        k = k + 1;
    }
    true
}

/// A site as plain values: address, overwritten length, displaced
/// instructions and the protection restored after patching.
pub open spec fn full_view(site: PatchSite) -> (int, int, Seq<u8>, int) {
    (site.address as int, site.overwrite_length as int, site.displaced@, site.restore_protection as int)
}

/// Whether `views` is ordered by address.
pub open spec fn sorted_by_address(views: Seq<(int, int, Seq<u8>, int)>) -> bool {
    forall|i: int, j: int| 0 <= i < j < views.len() ==> #[trigger] views[i].0 <= #[trigger] views[j].0
}

/// Orders sites by address; sites at one address may come in any order.
pub fn sort_by_address(sites: Vec<PatchSite>) -> (sorted: Vec<PatchSite>)
    ensures
        sorted_by_address(sorted@.map_values(|site: PatchSite| full_view(site))),
        sorted@.map_values(|site: PatchSite| full_view(site)).to_multiset() == sites@.map_values(
            |site: PatchSite| full_view(site),
        ).to_multiset(),
{
    broadcast use vstd::seq_lib::group_to_multiset_ensures;

    let ghost initial = sites@.map_values(|site: PatchSite| full_view(site));
    let mut rest = sites;
    let mut sorted: Vec<PatchSite> = Vec::new();
    while rest.len() > 0
        invariant
            sorted_by_address(sorted@.map_values(|site: PatchSite| full_view(site))),
            sorted@.map_values(|site: PatchSite| full_view(site)).to_multiset().add(
                rest@.map_values(|site: PatchSite| full_view(site)).to_multiset(),
            ) == initial.to_multiset(),
        decreases rest@.len(),
    {
        let ghost rest_before = rest@.map_values(|site: PatchSite| full_view(site));
        let ghost sorted_before = sorted@.map_values(|site: PatchSite| full_view(site));
        let site = match rest.pop() {
            Some(site) => site,
            None => {
                return sorted;
            },
        };
        let ghost rest_after = rest@.map_values(|site: PatchSite| full_view(site));
        assert(rest_before =~= rest_after.push(full_view(site)));
        let mut j: usize = 0;
        while j < sorted.len() && sorted[j].address <= site.address
            invariant
                0 <= j <= sorted@.len(),
                sorted@.map_values(|site: PatchSite| full_view(site)) == sorted_before,
                forall|k: int| 0 <= k < j ==> #[trigger] sorted@[k].address <= site.address,
            decreases sorted@.len() - j,
        {
            j = j + 1;
        }
        sorted.insert(j, site);
        let ghost sorted_after = sorted@.map_values(|site: PatchSite| full_view(site));
        assert(sorted_after =~= sorted_before.insert(j as int, full_view(site)));
        assert(sorted_by_address(sorted_after)) by {
            assert forall|a: int, b: int| 0 <= a < b < sorted_after.len() implies #[trigger] sorted_after[a].0
                <= #[trigger] sorted_after[b].0 by {
                if a < j && b == j {
                    assert(sorted_after[a] == sorted_before[a]);
                } else if a == j && b > j {
                    assert(sorted_after[b] == sorted_before[b - 1]);
                    if j < sorted_before.len() {
                        assert(sorted_before[j as int].0 > site.address);
                        if b - 1 > j {
                            assert(sorted_before[j as int].0 <= sorted_before[b - 1].0);
                        }
                    }
                } else if a < j && b > j {
                    assert(sorted_after[a] == sorted_before[a]);
                    assert(sorted_after[b] == sorted_before[b - 1]);
                } else if b < j {
                    assert(sorted_after[a] == sorted_before[a]);
                    assert(sorted_after[b] == sorted_before[b]);
                } else {
                    assert(sorted_after[a] == sorted_before[a - 1]);
                    assert(sorted_after[b] == sorted_before[b - 1]);
                }
            }
        }
        proof {
            vstd::seq_lib::to_multiset_insert(sorted_before, j as int, full_view(site));
            vstd::seq_lib::to_multiset_build(rest_after, full_view(site));
            broadcast use vstd::multiset::group_multiset_axioms;
            assert(sorted_after.to_multiset().add(rest_after.to_multiset()) =~= sorted_before.to_multiset().add(
                rest_before.to_multiset(),
            ));
        }
    }
    assert(rest@.map_values(|site: PatchSite| full_view(site)) =~= Seq::empty());
    sorted
}

/// What selecting among the first `count` sites of an address-ordered list
/// keeps, and the end of the last kept site: the first site at each
/// address, unless its end overflows or it starts inside the previously
/// kept site.
pub open spec fn spec_select(views: Seq<(int, int, Seq<u8>, int)>, count: int) -> (Seq<(int, int, Seq<u8>, int)>, int)
    decreases count,
{
    if count <= 0 {
        (Seq::empty(), 0)
    } else {
        let (kept, previous_end) = spec_select(views, count - 1);
        let site = views[count - 1];
        if count - 1 > 0 && views[count - 2].0 == site.0 {
            (kept, previous_end)
        } else if site.0 + site.1 > usize::MAX || site.0 < previous_end {
            (kept, previous_end)
        } else {
            (kept.push(site), site.0 + site.1)
        }
    }
}

/// The kept sites never overlap: each ends, without overflow, at or before
/// the address of the next one, so no byte is rewritten by two branches.
pub proof fn lemma_select_non_overlapping(views: Seq<(int, int, Seq<u8>, int)>, count: int)
    requires
        0 <= count <= views.len(),
        forall|i: int| 0 <= i < views.len() ==> (#[trigger] views[i]).1 >= 0,
    ensures
        ({
            let (kept, previous_end) = spec_select(views, count);
            &&& forall|i: int| 0 <= i < kept.len() ==> (#[trigger] kept[i]).0 + kept[i].1 <= usize::MAX
            &&& forall|i: int| 0 <= i < kept.len() ==> (#[trigger] kept[i]).0 + kept[i].1 <= previous_end
            &&& forall|i: int, j: int| 0 <= i < j < kept.len() ==> (#[trigger] kept[i]).0 + kept[i].1 <= (#[trigger] kept[j]).0
            &&& 0 <= previous_end
        }),
    decreases count,
{
    if count > 0 {
        lemma_select_non_overlapping(views, count - 1);
        let (kept, previous_end) = spec_select(views, count - 1);
        let site = views[count - 1];
        let (now, now_end) = spec_select(views, count);
        if !(count - 1 > 0 && views[count - 2].0 == site.0) && !(site.0 + site.1 > usize::MAX || site.0 < previous_end) {
            assert(now == kept.push(site));
            assert forall|i: int, j: int| 0 <= i < j < now.len() implies (#[trigger] now[i]).0 + now[i].1 <= (#[trigger] now[j]).0 by {
                if j == now.len() - 1 {
                    assert(now[i] == kept[i]);
                } else {
                    assert(now[i] == kept[i] && now[j] == kept[j]);
                }
            }
            assert forall|i: int| 0 <= i < now.len() implies (#[trigger] now[i]).0 + now[i].1 <= now_end by {
                if i < kept.len() {
                    assert(now[i] == kept[i]);
                }
            }
        }
    }
}

/// Keeps, of address-ordered sites, those whose replaced ranges do not
/// overlap: the first site at an address wins, and a site starting inside
/// the previously kept site's range is dropped.
pub fn select_non_overlapping(sites: Vec<PatchSite>) -> (kept: Vec<PatchSite>)
    ensures
        kept@.map_values(|site: PatchSite| full_view(site)) == spec_select(
            sites@.map_values(|site: PatchSite| full_view(site)),
            sites@.len() as int,
        ).0,
{
    let ghost views = sites@.map_values(|site: PatchSite| full_view(site));
    let mut kept: Vec<PatchSite> = Vec::new();
    let mut previous_end: usize = 0;
    let mut i: usize = 0;
    while i < sites.len()
        invariant
            views == sites@.map_values(|site: PatchSite| full_view(site)),
            0 <= i <= sites@.len(),
            kept@.map_values(|site: PatchSite| full_view(site)) == spec_select(views, i as int).0,
            previous_end == spec_select(views, i as int).1,
        decreases sites@.len() - i,
    {
        let ghost kept_before = kept@.map_values(|site: PatchSite| full_view(site));
        let site = &sites[i];
        if i > 0 && sites[i - 1].address == site.address {
        } else {
            match site.address.checked_add(site.overwrite_length) {
                None => {},
                Some(end) => {
                    if site.address >= previous_end {
                        kept.push(site.copy());
                        assert(kept@.map_values(|site: PatchSite| full_view(site)) =~= kept_before.push(views[i as int]));
                        previous_end = end;
                    }
                },
            }
        }
        i = i + 1;
    }
    kept
}

/// Where the trampolines of sites of the given sizes start in a shared
/// region, each on a 16-byte boundary right after the previous one, and
/// the bytes they use in all; `None` when that overflows.
pub open spec fn spec_trampoline_offsets(sizes: Seq<usize>, count: int) -> Option<(Seq<usize>, int)>
    decreases count,
{
    if count <= 0 {
        Some((Seq::empty(), 0))
    } else {
        match spec_trampoline_offsets(sizes, count - 1) {
            None => None,
            Some((offsets, used)) => {
                let start = spec_align_up(used, 16);
                if start + sizes[count - 1] > usize::MAX {
                    None
                } else {
                    Some((offsets.push(start as usize), start + sizes[count - 1]))
                }
            },
        }
    }
}

/// Lays out the trampolines of sites of the given sizes.
pub fn trampoline_offsets(sizes: &[usize]) -> (layout: Option<(Vec<usize>, usize)>)
    ensures
        match layout {
            None => spec_trampoline_offsets(sizes@, sizes@.len() as int) is None,
            Some((offsets, used)) => spec_trampoline_offsets(sizes@, sizes@.len() as int) == Some((offsets@, used as int)),
        },
        layout matches Some((offsets, used)) ==> {
            &&& offsets@.len() == sizes@.len()
            &&& forall|i: int| 0 <= i < offsets@.len() ==> #[trigger] offsets@[i] % 16 == 0
            &&& forall|i: int| 0 <= i < offsets@.len() ==> offsets@[i] + sizes@[i] <= used
            &&& forall|i: int, j: int| 0 <= i < j < offsets@.len() ==> offsets@[i] + sizes@[i] <= offsets@[j]
        },
{
    let mut offsets: Vec<usize> = Vec::new();
    let mut used: usize = 0;
    let mut i: usize = 0;
    while i < sizes.len()
        invariant
            0 <= i <= sizes@.len(),
            spec_trampoline_offsets(sizes@, i as int) == Some((offsets@, used as int)),
            offsets@.len() == i,
            forall|k: int| 0 <= k < i ==> #[trigger] offsets@[k] % 16 == 0,
            forall|k: int| 0 <= k < i ==> offsets@[k] + sizes@[k] <= used,
            forall|a: int, b: int| 0 <= a < b < i ==> offsets@[a] + sizes@[a] <= offsets@[b],
        decreases sizes@.len() - i,
    {
        if used > usize::MAX - 15 {
            proof {
                lemma_none_stays_none(sizes@, i as int + 1, sizes@.len() as int);
            }
            return None;
        }
        let start: usize = align_up(used, TRAMPOLINE_ALIGNMENT);
        offsets.push(start);
        match start.checked_add(sizes[i]) {
            None => {
                proof {
                    lemma_none_stays_none(sizes@, i as int + 1, sizes@.len() as int);
                }
                return None;
            },
            Some(next) => {
                used = next;
            },
        }
        i = i + 1;
    }
    Some((offsets, used))
}

/// Once the layout overflows, it stays overflowed.
proof fn lemma_none_stays_none(sizes: Seq<usize>, from: int, to: int)
    requires
        0 <= from <= to,
        spec_trampoline_offsets(sizes, from) is None,
    ensures
        spec_trampoline_offsets(sizes, to) is None,
    decreases to - from,
{
    if from < to {
        lemma_none_stays_none(sizes, from, to - 1);
    }
}

/// Whether the live bytes at a site still are the syscall instruction
/// followed by the displaced instructions, and the branch `patch` replaces
/// exactly the site's range: the last check before the text is written.
pub fn patch_matches_site(site: &PatchSite, patch: &[u8], live: &[u8], syscall_instruction: &[u8]) -> (matches: bool)
    ensures
        matches == {
            &&& patch@.len() == site.overwrite_length
            &&& patch@.len() <= MAX_PATCH_SIZE
            &&& patch@.len() == syscall_instruction@.len() + site.displaced@.len()
            &&& live@.len() >= patch@.len()
            &&& live@.subrange(0, syscall_instruction@.len() as int) == syscall_instruction@
            &&& live@.subrange(syscall_instruction@.len() as int, patch@.len() as int) == site.displaced@
        },
{
    if patch.len() != site.overwrite_length || patch.len() > MAX_PATCH_SIZE {
        return false;
    }
    if syscall_instruction.len() > patch.len() || patch.len() - syscall_instruction.len() != site.displaced.len() {
        return false;
    }
    if live.len() < patch.len() {
        return false;
    }
    let n: usize = syscall_instruction.len();
    let mut i: usize = 0;
    while i < patch.len()
        invariant
            patch@.len() == n + site.displaced@.len(),
            live@.len() >= patch@.len(),
            n == syscall_instruction@.len(),
            0 <= i <= patch@.len(),
            forall|k: int| 0 <= k < i && k < n ==> live@[k] == syscall_instruction@[k],
            forall|k: int| n <= k < i ==> live@[k] == site.displaced@[k - n],
        decreases patch@.len() - i,
    {
        let expected: u8 = if i < n {
            syscall_instruction[i]
        } else {
            site.displaced[i - n]
        };
        if live[i] != expected {
            proof {
                if i < n {
                    assert(live@.subrange(0, n as int)[i as int] != syscall_instruction@[i as int]);
                } else {
                    assert(live@.subrange(n as int, patch@.len() as int)[i - n] != site.displaced@[i - n]);
                }
            }
            return false;
        }
        i = i + 1;
    }
    assert(live@.subrange(0, n as int) =~= syscall_instruction@);
    assert(live@.subrange(n as int, patch@.len() as int) =~= site.displaced@);
    true
}

/// The page range `[page_start, page_end)` whose protection must change to
/// write a site's branch, or `None` when its end overflows.
pub fn site_page_range(address: usize, overwrite_length: usize, page_size: usize) -> (range: Option<(usize, usize)>)
    requires
        page_size >= 1,
        page_size & (page_size - 1) as usize == 0,
    ensures
        match range {
            None => address + overwrite_length > usize::MAX || address + overwrite_length + page_size - 1 > usize::MAX,
            Some((start, end)) => {
                &&& start == address & !((page_size - 1) as usize)
                &&& start <= address
                &&& address + overwrite_length <= end
                &&& end & ((page_size - 1) as usize) == 0
                &&& start & ((page_size - 1) as usize) == 0
            },
        },
{
    let start: usize = address & !(page_size - 1);
    proof {
        let a = address;
        let p = page_size;
        let m = (p - 1) as usize;
        assert(p >= 1 && m == (p - 1) as usize ==> (a & !m) <= a && (a & !m) & m == 0) by (bit_vector);
    }
    let site_end: usize = match address.checked_add(overwrite_length) {
        Some(end) => end,
        None => return None,
    };
    match align_up_checked(site_end, page_size) {
        None => None,
        Some(end) => Some((start, end)),
    }
}

} // verus!
