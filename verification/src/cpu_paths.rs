//! CPU directories under `/sys/devices/system/cpu`: which entries are CPUs,
//! their numbers, and their order.
use vstd::prelude::*;
use crate::text::{
    all_digits, chars_of, parse_unsigned, rfind_char, slice_chars, spec_rfind_char,
    spec_all_digits, spec_parse_unsigned, spec_starts_with, starts_with, decimal,
    lemma_decimal_value, lemma_parse_unsigned_decimal, lemma_rindex_last, is_digit,
};

verus! {

/// End of the last component of `p[..j]`: trailing `/` separators and
/// `.` components (a `.` right after a `/`) are not part of it, as
/// `Path::file_name` has it.
pub open spec fn component_end(p: Seq<char>, j: int) -> int
    decreases j,
{
    if j >= 1 && p[j - 1] == '/' {
        component_end(p, j - 1)
    } else if j >= 2 && p[j - 1] == '.' && p[j - 2] == '/' {
        component_end(p, j - 1)
    } else {
        j
    }
}

/// The last component of a path (`Path::file_name`): what follows the last
/// `/` once trailing separators and `.` components are set aside.
pub open spec fn file_name(p: Seq<char>) -> Seq<char> {
    let b = p.take(component_end(p, p.len() as int));
    match spec_rfind_char(b, '/') {
        Some(k) => b.skip(k + 1),
        None => b,
    }
}

/// A directory named `cpu` followed by digits only.
pub open spec fn spec_is_cpu_dir(p: Seq<char>) -> bool {
    let n = file_name(p);
    spec_starts_with(n, "cpu"@) && spec_all_digits(n.skip("cpu"@.len() as int))
}

/// The number of a directory named `cpu<n>`, where `<n>` reads as a `u32`.
pub open spec fn spec_cpu_index(p: Seq<char>) -> Option<u32> {
    let n = file_name(p);
    if spec_starts_with(n, "cpu"@) {
        match spec_parse_unsigned(n.skip("cpu"@.len() as int), u32::MAX as nat) {
            Some(v) => Some(v as u32),
            None => None,
        }
    } else {
        None
    }
}

/// The key CPU directories are ordered by: their number, `u32::MAX` for
/// those without one.
pub open spec fn cpu_key(p: Seq<char>) -> u32 {
    match spec_cpu_index(p) {
        Some(v) => v,
        None => u32::MAX,
    }
}

fn last_component(p: &Vec<char>) -> (r: Vec<char>)
    ensures
        r@ == file_name(p@),
{
    let mut e: usize = p.len();
    loop
        invariant_except_break
            e <= p.len(),
            component_end(p@, p@.len() as int) == component_end(p@, e as int),
        ensures
            e <= p.len(),
            component_end(p@, p@.len() as int) == e as int,
        decreases e,
    {
        if e >= 1 && p[e - 1] == '/' {
            e = e - 1;
        } else if e >= 2 && p[e - 1] == '.' && p[e - 2] == '/' {
            e = e - 1;
        } else {
            break;
        }
    }
    let b = slice_chars(p, 0, e);
    assert(b@ =~= p@.take(e as int));
    match rfind_char(&b, '/') {
        Some(k) => {
            let r = slice_chars(&b, k + 1, e);
            assert(r@ =~= b@.skip(k + 1));
            r
        },
        None => b,
    }
}

/// Whether the path names a CPU directory (`cpu` followed by digits only).
pub fn is_cpu_dir(path: &str) -> (r: bool)
    ensures
        r == spec_is_cpu_dir(path@),
{
    let n = last_component(&chars_of(path));
    let prefix = chars_of("cpu");
    if !starts_with(&n, &prefix) {
        return false;
    }
    let rest = slice_chars(&n, prefix.len(), n.len());
    assert(rest@ =~= n@.skip(prefix@.len() as int));
    all_digits(&rest)
}

/// The number of a CPU directory.
pub fn cpu_index(path: &str) -> (r: Option<u32>)
    ensures
        r == spec_cpu_index(path@),
{
    let n = last_component(&chars_of(path));
    let prefix = chars_of("cpu");
    if !starts_with(&n, &prefix) {
        return None;
    }
    let rest = slice_chars(&n, prefix.len(), n.len());
    assert(rest@ =~= n@.skip(prefix@.len() as int));
    match parse_unsigned(&rest, u32::MAX as u64) {
        Some(v) => Some(v as u32),
        None => None,
    }
}

/// `order` lists every index of `keys` once, by increasing key, indices
/// with equal keys in increasing order: the order of a stable sort.
pub open spec fn stable_order(keys: Seq<u32>, order: Seq<usize>) -> bool {
    &&& order.len() == keys.len()
    &&& forall|a: int| 0 <= a < order.len() ==> order[a] < keys.len()
    &&& forall|a: int, b: int| 0 <= a < order.len() && 0 <= b < order.len() && a != b ==> order[a] != order[b]
    &&& forall|a: int, b: int| 0 <= a < b < order.len() ==> keys[order[a] as int] <= keys[order[b] as int]
    &&& forall|a: int, b: int|
        0 <= a < b < order.len() && keys[order[a] as int] == keys[order[b] as int] ==> order[a] < order[b]
}

/// Sorts the indices of `keys` stably by key (insertion sort).
fn stable_sort_indices(keys: &Vec<u32>) -> (order: Vec<usize>)
    ensures
        stable_order(keys@, order@),
{
    let n = keys.len();
    let mut order: Vec<usize> = Vec::new();
    let mut k: usize = 0;
    while k < n
        invariant
            k <= n,
            n == keys.len(),
            order@.len() == k,
            forall|a: int| 0 <= a < k ==> order@[a] == a,
        decreases n - k,
    {
        order.push(k);
        k += 1;
    }
    let ghost ks = keys@;
    let mut i: usize = 0;
    while i < n
        invariant
            i <= n,
            n == keys.len(),
            ks == keys@,
            order@.len() == n,
            forall|a: int| i <= a < n ==> order@[a] == a,
            forall|a: int| 0 <= a < i ==> order@[a] < i,
            forall|a: int, b: int| 0 <= a < n && 0 <= b < n && a != b ==> order@[a] != order@[b],
            forall|a: int, b: int| 0 <= a < b < i ==> ks[order@[a] as int] <= ks[order@[b] as int],
            forall|a: int, b: int|
                0 <= a < b < i && ks[order@[a] as int] == ks[order@[b] as int] ==> order@[a]
                    < order@[b],
        decreases n - i,
    {
        let x = i;
        let kx = keys[x];
        let mut j: usize = i;
        while j > 0 && keys[order[j - 1]] > kx
            invariant
                j <= i < n,
                n == keys.len(),
                ks == keys@,
                kx == ks[x as int],
                x == i,
                order@.len() == n,
                order@[j as int] == x,
                forall|a: int| i < a < n ==> order@[a] == a,
                forall|a: int| 0 <= a <= i && a != j ==> order@[a] < i,
                forall|a: int, b: int| 0 <= a < n && 0 <= b < n && a != b ==> order@[a] != order@[b],
                forall|a: int, b: int|
                    0 <= a < b <= i && a != j && b != j ==> ks[order@[a] as int] <= ks[order@[b] as int],
                forall|b: int| j < b <= i ==> ks[order@[b] as int] > kx,
                forall|a: int, b: int|
                    0 <= a < b <= i && a != j && b != j && ks[order@[a] as int] == ks[order@[b] as int]
                        ==> order@[a] < order@[b],
            decreases j,
        {
            let y = order[j - 1];
            let ghost before = order@;
            order.set(j - 1, x);
            order.set(j, y);
            assert(order@ =~= before.update(j - 1, x).update(j as int, y));
            assert forall|a: int, b: int| 0 <= a < n && 0 <= b < n && a != b implies order@[a]
                != order@[b] by {
                let a0 = if a == j - 1 {
                    j as int
                } else if a == j {
                    j - 1
                } else {
                    a
                };
                let b0 = if b == j - 1 {
                    j as int
                } else if b == j {
                    j - 1
                } else {
                    b
                };
                assert(order@[a] == before[a0] && order@[b] == before[b0]);
            }
            assert forall|a: int, b: int|
                0 <= a < b <= i && a != j - 1 && b != j - 1 implies ks[order@[a] as int]
                <= ks[order@[b] as int] by {
                let a0 = if a == j {
                    j - 1
                } else {
                    a
                };
                let b0 = if b == j {
                    j - 1
                } else {
                    b
                };
                assert(order@[a] == before[a0] && order@[b] == before[b0]);
            }
            assert forall|a: int, b: int|
                0 <= a < b <= i && a != j - 1 && b != j - 1 && ks[order@[a] as int]
                    == ks[order@[b] as int] implies order@[a] < order@[b] by {
                let a0 = if a == j {
                    j - 1
                } else {
                    a
                };
                let b0 = if b == j {
                    j - 1
                } else {
                    b
                };
                assert(order@[a] == before[a0] && order@[b] == before[b0]);
            }
            j -= 1;
        }
        assert forall|a: int, b: int| 0 <= a < b <= i implies ks[order@[a] as int]
            <= ks[order@[b] as int] by {
            if a == j {
                if j > 0 && b < j {
                } 
            } else if b == j {
                if a < j - 1 {
                    assert(ks[order@[a] as int] <= ks[order@[j - 1] as int]);
                }
            }
        }
        i += 1;
    }
    order
}

} // verus!

verus! {

/// The sort keys of CPU directories.
pub open spec fn cpu_keys(paths: Seq<String>) -> Seq<u32> {
    paths.map_values(|p: String| cpu_key(p@))
}

/// Sorts CPU directories by CPU number, those without a number last; the
/// sort is stable.
pub fn sort_cpu_paths(cpu_paths: &mut Vec<String>)
    ensures
        exists|order: Seq<usize>|
            {
                &&& stable_order(cpu_keys(old(cpu_paths)@), order)
                &&& final(cpu_paths)@.len() == order.len()
                &&& forall|k: int|
                    0 <= k < order.len() ==> #[trigger] final(cpu_paths)@[k]@ == old(
                        cpu_paths,
                    )@[order[k] as int]@
            },
{
    let n = cpu_paths.len();
    let mut keys: Vec<u32> = Vec::new();
    let mut i: usize = 0;
    while i < n
        invariant
            i <= n,
            n == cpu_paths.len(),
            keys@.len() == i,
            forall|a: int| 0 <= a < i ==> keys@[a] == cpu_key(cpu_paths@[a]@),
        decreases n - i,
    {
        let key = match cpu_index(cpu_paths[i].as_str()) {
            Some(v) => v,
            None => u32::MAX,
        };
        keys.push(key);
        i += 1;
    }
    assert(keys@ =~= cpu_keys(cpu_paths@));
    let order = stable_sort_indices(&keys);
    let mut sorted: Vec<String> = Vec::new();
    let mut k: usize = 0;
    while k < n
        invariant
            k <= n,
            n == cpu_paths.len(),
            stable_order(keys@, order@),
            keys@.len() == n,
            sorted@.len() == k,
            forall|a: int| 0 <= a < k ==> sorted@[a]@ == cpu_paths@[order@[a] as int]@,
        decreases n - k,
    {
        sorted.push(cpu_paths[order[k]].clone());
        k += 1;
    }
    let ghost original = cpu_paths@;
    *cpu_paths = sorted;
    assert(forall|a: int| 0 <= a < n ==> cpu_paths@[a]@ == original[order@[a] as int]@);
}

} // verus!

verus! {

/// Every index occurs in a stable order.
pub proof fn lemma_stable_order_covers(keys: Seq<u32>, order: Seq<usize>, x: int)
    requires
        stable_order(keys, order),
        0 <= x < keys.len(),
    ensures
        exists|a: int| 0 <= a < order.len() && order[a] == x,
{
    let n = keys.len() as int;
    let oi = order.map_values(|v: usize| v as int);
    assert(oi.no_duplicates()) by {
        assert forall|a: int, b: int| 0 <= a < oi.len() && 0 <= b < oi.len() && a != b implies oi[a]
            != oi[b] by {
            assert(order[a] != order[b]);
        }
    }
    oi.unique_seq_to_set();
    vstd::set_lib::lemma_int_range(0, n);
    assert(oi.to_set().subset_of(vstd::set_lib::set_int_range(0, n))) by {
        assert forall|v: int| oi.to_set().contains(v) implies vstd::set_lib::set_int_range(
            0,
            n,
        ).contains(v) by {
            assert(oi.contains(v));
            let a = choose|a: int| 0 <= a < oi.len() && oi[a] == v;
            assert(order[a] < keys.len());
        }
    }
    vstd::seq_lib::seq_to_set_is_finite(oi);
    vstd::set_lib::lemma_subset_equality(oi.to_set(), vstd::set_lib::set_int_range(0, n));
    assert(vstd::set_lib::set_int_range(0, n).contains(x));
    assert(oi.to_set().contains(x));
    assert(oi.contains(x));
    let a = choose|a: int| 0 <= a < oi.len() && oi[a] == x;
    assert(order[a] == x);
}

/// Two stable orders of the same keys agree on their first `a` positions.
proof fn lemma_stable_orders_agree(keys: Seq<u32>, o1: Seq<usize>, o2: Seq<usize>, a: int)
    requires
        stable_order(keys, o1),
        stable_order(keys, o2),
        0 <= a <= keys.len(),
    ensures
        forall|b: int| 0 <= b < a ==> o1[b] == o2[b],
    decreases a,
{
    if a > 0 {
        lemma_stable_orders_agree(keys, o1, o2, a - 1);
        let i = a - 1;
        let p = o1[i];
        let q = o2[i];
        if p != q {
            lemma_stable_order_covers(keys, o1, q as int);
            let c = choose|c: int| 0 <= c < o1.len() && o1[c] == q;
            lemma_stable_order_covers(keys, o2, p as int);
            let d = choose|d: int| 0 <= d < o2.len() && o2[d] == p;
            if c < i {
                assert(o2[c] == q);
            }
            if d < i {
                assert(o1[d] == p);
            }
            assert(c > i && d > i);
            assert(keys[p as int] <= keys[q as int]);
            assert(keys[q as int] <= keys[p as int]);
            assert(p < q);
            assert(q < p);
        }
    }
}

/// The stable order of keys is unique: a stable sort has one possible result.
pub proof fn law_stable_order_unique(keys: Seq<u32>, o1: Seq<usize>, o2: Seq<usize>)
    requires
        stable_order(keys, o1),
        stable_order(keys, o2),
    ensures
        o1 == o2,
{
    lemma_stable_orders_agree(keys, o1, o2, keys.len() as int);
    assert(o1 =~= o2);
}

/// A directory named `cpu<n>`, whatever path leads to it, is a CPU
/// directory whose number is `n`.
pub proof fn law_cpu_directory_number(p: Seq<char>, n: u32)
    ensures
        spec_is_cpu_dir(p + "/cpu"@ + decimal(n as nat)),
        spec_cpu_index(p + "/cpu"@ + decimal(n as nat)) == Some(n),
{
    reveal_strlit("/cpu");
    reveal_strlit("cpu");
    let d = decimal(n as nat);
    lemma_decimal_value(n as nat);
    let s = p + "/cpu"@ + d;
    let m = p.len() as int;
    assert(s.last() == d.last());
    assert(is_digit(d[d.len() - 1]));
    assert(component_end(s, s.len() as int) == s.len());
    assert(s.take(s.len() as int) =~= s);
    assert(s[m] == '/');
    assert forall|i: int| m < i < s.len() implies s[i] != '/' by {
        if i >= m + 4 {
            assert(s[i] == d[i - m - 4]);
            assert(is_digit(d[i - m - 4]));
        }
    }
    lemma_rindex_last(s, '/', m, s.len() as int);
    let name = s.skip(m + 1);
    assert(name =~= "cpu"@ + d);
    assert(spec_starts_with(name, "cpu"@));
    assert(name.skip(3) =~= d);
    lemma_parse_unsigned_decimal(n as nat, u32::MAX as nat);
}

} // verus!
