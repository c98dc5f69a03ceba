//! Network interface helpers (existence check + `any` = all NICs).

use vstd::prelude::*;

use crate::text::{ascii_lower, concat3, text_is, to_ascii_lowercase};

verus! {

/// Sentinel interface name: sniff / observe on all NICs.
pub const ANY: &'static str = "any";

/// True when `name` means “all interfaces” (`any`, case-insensitive).
pub fn is_any(name: &str) -> (r: bool)
    ensures
        r == (ascii_lower(name@) == "any"@),
{
    let lower = to_ascii_lowercase(name);
    text_is(&lower, "any")
}

/// `nix::net::if_::if_nametoindex`: the index the system gives the named
/// interface, or the system's error message. What the system answers is not
/// stated; nix turns a zero index into an error, so an index is never zero.
#[verifier::external_body]
fn if_nametoindex(name: &str) -> (r: Result<u32, String>)
    ensures
        r matches Ok(i) ==> i != 0,
{
    match nix::net::if_::if_nametoindex(name) {
        Ok(i) => Ok(i),
        Err(e) => Err(std::io::Error::from(e).to_string()),
    }
}

/// `nix::net::if_::if_nameindex`: the names of the system's interfaces, in
/// the order the system lists them, or the system's error message. What the
/// system answers is not stated.
#[verifier::external_body]
fn if_names() -> (r: Result<Vec<String>, String>) {
    match nix::net::if_::if_nameindex() {
        Ok(list) => Ok(list.iter().map(|i| i.name().to_string_lossy().into_owned()).collect()),
        Err(e) => Err(std::io::Error::from(e).to_string()),
    }
}

/// True when `name` holds a NUL character (no C string can carry it).
pub fn has_nul(name: &str) -> (r: bool)
    ensures
        r == name@.contains('\0'),
{
    let n = name.unicode_len();
    let mut i: usize = 0;
    while i < n
        invariant
            n == name@.len(),
            i <= n,
            forall|j: int| 0 <= j < i ==> name@[j] != '\0',
        decreases n - i,
    {
        if name.get_char(i) == '\0' {
            assert(name@[i as int] == '\0');
            return true;
        }
        i = i + 1;
    }
    false
}

/// Resolve an interface name to an ifindex (`0` for [`ANY`]); an unknown
/// interface is an error that says it does not exist.
pub fn ifindex(name: &str) -> (r: Result<u32, String>)
    ensures
        ascii_lower(name@) == "any"@ ==> r == Ok::<u32, String>(0),
        ascii_lower(name@) != "any"@ && name@.contains('\0') ==> (r matches Err(m) && m@ == "interface name"@),
        ascii_lower(name@) != "any"@ && !name@.contains('\0') ==> match r {
            Ok(i) => i != 0,
            Err(m) => exists|e: Seq<char>| m@ == "interface `"@ + name@ + "` does not exist ("@ + e + ")"@,
        },
{
    if is_any(name) {
        return Ok(0);
    }
    if has_nul(name) {
        return Err(String::from_str("interface name"));
    }
    index_outcome(name, if_nametoindex(name))
}

/// What resolving a NIC name gives, from the system's answer `looked_up`
/// for it: the index, or an error saying the interface does not exist, with
/// the system's message.
pub fn index_outcome(name: &str, looked_up: Result<u32, String>) -> (r: Result<u32, String>)
    ensures
        match looked_up {
            Ok(i) => r == Ok::<u32, String>(i),
            Err(e) => r matches Err(m) && m@ == "interface `"@ + name@ + "` does not exist ("@ + e@ + ")"@,
        },
{
    match looked_up {
        Ok(i) => Ok(i),
        Err(e) => {
            let head = concat3("interface `", name, "` does not exist (");
            let msg = concat3(head.as_str(), e.as_str(), ")");
            assert(msg@ == "interface `"@ + name@ + "` does not exist ("@ + e@ + ")"@);
            Err(msg)
        },
    }
}

/// Fail fast at daemon start unless `name` is [`ANY`] or a real NIC.
pub fn ensure_exists(name: &str) -> (r: Result<(), String>)
    ensures
        name@.len() == 0 ==> (r matches Err(m) && m@ == "interface name is empty (use a NIC name or `any`)"@),
        name@.len() > 0 && ascii_lower(name@) == "any"@ ==> r is Ok,
        name@.len() > 0 && ascii_lower(name@) != "any"@ && name@.contains('\0') ==> (r matches Err(m) && m@
            == "interface name"@),
        name@.len() > 0 && ascii_lower(name@) != "any"@ && !name@.contains('\0') ==> (r matches Err(m) ==> exists|
            e: Seq<char>,
        | m@ == "interface `"@ + name@ + "` does not exist ("@ + e + ")"@),
{
    if name.unicode_len() == 0 {
        return Err(String::from_str("interface name is empty (use a NIC name or `any`)"));
    }
    match ifindex(name) {
        Ok(_) => Ok(()),
        Err(e) => Err(e),
    }
}

/// The interfaces fit for attaching when sniffing on [`ANY`]: every listed
/// name but `lo` and names meaning all interfaces, in order.
pub open spec fn attachable(names: Seq<Seq<char>>, n: int) -> Seq<Seq<char>>
    decreases n,
{
    if n <= 0 {
        seq![]
    } else {
        let p = attachable(names, n - 1);
        let x = names[n - 1];
        if x == "lo"@ || ascii_lower(x) == "any"@ {
            p
        } else {
            p.push(x)
        }
    }
}

/// The interfaces the system lists, without `lo` and `any`.
pub fn list_via_if_nameindex() -> (r: Result<Vec<String>, String>)
    ensures
        r matches Ok(v) ==> forall|i: int| 0 <= i < v@.len() ==> (#[trigger] v@[i])@ != "lo"@ && ascii_lower(v@[i]@) != "any"@,
        r matches Ok(v) ==> exists|names: Seq<Seq<char>>|
            v@.map_values(|s: String| s@) == #[trigger] attachable(names, names.len() as int),
{
    let names = match if_names() {
        Ok(v) => v,
        Err(e) => return Err(e),
    };
    let out = attachable_names(&names);
    proof {
        let nv = names@.map_values(|s: String| s@);
        assert(nv.len() == names@.len());
        assert(out@.map_values(|s: String| s@) == attachable(nv, nv.len() as int));
        lemma_attachable(names@.map_values(|s: String| s@), names@.len() as int);
        assert forall|i: int| 0 <= i < out@.len() implies (#[trigger] out@[i])@ != "lo"@ && ascii_lower(out@[i]@) != "any"@ by {
            assert(out@.map_values(|s: String| s@)[i] == out@[i]@);
        }
    }
    Ok(out)
}

/// No attachable name is `lo` or means all interfaces.
proof fn lemma_attachable(names: Seq<Seq<char>>, n: int)
    requires
        0 <= n <= names.len(),
    ensures
        forall|i: int| 0 <= i < attachable(names, n).len() ==> (#[trigger] attachable(names, n)[i]) != "lo"@
            && ascii_lower(attachable(names, n)[i]) != "any"@,
    decreases n,
{
    if n > 0 {
        lemma_attachable(names, n - 1);
        let p = attachable(names, n - 1);
        let x = names[n - 1];
        if !(x == "lo"@ || ascii_lower(x) == "any"@) {
            assert forall|i: int| 0 <= i < p.push(x).len() implies (#[trigger] p.push(x)[i]) != "lo"@ && ascii_lower(
                p.push(x)[i],
            ) != "any"@ by {
                if i < p.len() {
                    assert(p.push(x)[i] == p[i]);
                }
            }
        }
    }
}

/// [`attachable`] of a list of names.
pub fn attachable_names(names: &Vec<String>) -> (r: Vec<String>)
    ensures
        r@.map_values(|s: String| s@) == attachable(names@.map_values(|s: String| s@), names@.len() as int),
{
    let ghost nv = names@.map_values(|s: String| s@);
    let mut out: Vec<String> = Vec::new();
    let mut i: usize = 0;
    while i < names.len()
        invariant
            nv == names@.map_values(|s: String| s@),
            i <= names@.len(),
            out@.map_values(|s: String| s@) == attachable(nv, i as int),
        decreases names@.len() - i,
    {
        let name = &names[i];
        assert(nv[i as int] == name@);
        let ghost o0 = out@.map_values(|s: String| s@);
        if !(text_is(name, "lo") || is_any(name.as_str())) {
            out.push(name.clone());
            assert(out@.map_values(|s: String| s@) =~= o0.push(name@));
        }
        i = i + 1;
    }
    out
}

/// Interfaces suitable for XDP attach when sniffing on [`ANY`], from the
/// system's interface list (without `lo` and `any`). When the system list
/// cannot be had, the caller falls back to the names under
/// `/sys/class/net`, through [`sysfs_attachable`].
pub fn list_attachable() -> (r: Result<Vec<String>, String>)
    ensures
        r matches Ok(v) ==> forall|i: int| 0 <= i < v@.len() ==> (#[trigger] v@[i])@ != "lo"@ && ascii_lower(v@[i]@) != "any"@,
        r matches Ok(v) ==> exists|names: Seq<Seq<char>>|
            v@.map_values(|s: String| s@) == #[trigger] attachable(names, names.len() as int),
{
    list_via_if_nameindex()
}

/// `a` sorts before `b` from position `i` on: at the first differing
/// position the smaller code point wins; a proper prefix sorts first.
pub open spec fn text_lt_from(a: Seq<char>, b: Seq<char>, i: int) -> bool
    decreases a.len() - i,
{
    if i >= a.len() {
        i < b.len()
    } else if i >= b.len() {
        false
    } else if a[i] != b[i] {
        (a[i] as u32) < (b[i] as u32)
    } else {
        text_lt_from(a, b, i + 1)
    }
}

/// Code-point lexicographic order, the order of `str` comparison.
pub open spec fn text_lt(a: Seq<char>, b: Seq<char>) -> bool {
    text_lt_from(a, b, 0)
}

/// The order is transitive.
pub proof fn lemma_text_lt_trans(a: Seq<char>, b: Seq<char>, c: Seq<char>, i: int)
    requires
        0 <= i,
        text_lt_from(a, b, i),
        text_lt_from(b, c, i),
    ensures
        text_lt_from(a, c, i),
    decreases a.len() - i,
{
    if i < a.len() && i < b.len() && i < c.len() && a[i] == b[i] && b[i] == c[i] {
        lemma_text_lt_trans(a, b, c, i + 1);
    }
}

/// No text sorts before itself.
pub proof fn lemma_text_lt_irrefl(a: Seq<char>, i: int)
    requires
        0 <= i,
    ensures
        !text_lt_from(a, a, i),
    decreases a.len() - i,
{
    if i < a.len() {
        lemma_text_lt_irrefl(a, i + 1);
    }
}

/// Whether `a` sorts before `b`.
pub fn text_less(a: &String, b: &String) -> (r: bool)
    ensures
        r == text_lt(a@, b@),
{
    let x = crate::client::str_chars(a.as_str());
    let y = crate::client::str_chars(b.as_str());
    let mut i: usize = 0;
    while i < x.len() && i < y.len()
        invariant
            x@ == a@,
            y@ == b@,
            i <= x@.len(),
            i <= y@.len(),
            text_lt(a@, b@) == text_lt_from(a@, b@, i as int),
        decreases x@.len() - i,
    {
        if x[i] != y[i] {
            return (x[i] as u32) < (y[i] as u32);
        }
        i = i + 1;
    }
    i < y.len()
}

/// Names in order: none sorts before an earlier one.
pub open spec fn names_sorted(s: Seq<Seq<char>>) -> bool {
    forall|i: int, j: int| 0 <= i < j < s.len() ==> !text_lt(#[trigger] s[j], #[trigger] s[i])
}

/// Names sorted, the same names with the same multiplicities.
pub fn sort_names(v: Vec<String>) -> (r: Vec<String>)
    ensures
        names_sorted(r@.map_values(|s: String| s@)),
        r@.map_values(|s: String| s@).to_multiset() == v@.map_values(|s: String| s@).to_multiset(),
{
    let ghost vv = v@.map_values(|s: String| s@);
    let mut out: Vec<String> = Vec::new();
    let mut i: usize = 0;
    assert(out@.map_values(|s: String| s@) =~= vv.take(0));
    while i < v.len()
        invariant
            i <= v@.len(),
            vv == v@.map_values(|s: String| s@),
            names_sorted(out@.map_values(|s: String| s@)),
            out@.map_values(|s: String| s@).to_multiset() == vv.take(i as int).to_multiset(),
        decreases v@.len() - i,
    {
        let x = v[i].clone();
        let ghost ov = out@.map_values(|s: String| s@);
        let mut p: usize = 0;
        while p < out.len() && !text_less(&x, &out[p])
            invariant
                p <= out@.len(),
                ov == out@.map_values(|s: String| s@),
                forall|q: int| 0 <= q < p ==> !text_lt(x@, #[trigger] ov[q]),
            decreases out@.len() - p,
        {
            p = p + 1;
        }
        out.insert(p, x);
        proof {
            let nv = out@.map_values(|s: String| s@);
            assert(nv =~= ov.insert(p as int, x@));
            assert(x@ == vv[i as int]);
            assert(vv.take(i + 1) =~= vv.take(i as int).push(vv[i as int]));
            vstd::seq_lib::to_multiset_insert(ov, p as int, x@);
            vstd::seq_lib::to_multiset_build(vv.take(i as int), vv[i as int]);
            assert forall|a: int, b: int| 0 <= a < b < nv.len() implies !text_lt(#[trigger] nv[b], #[trigger] nv[a]) by {
                if b == p {
                    assert(nv[a] == ov[a]);
                } else if a == p {
                    assert(nv[b] == ov[b - 1]);
                    assert(text_lt(x@, ov[p as int]));
                    if p as int <= b - 1 {
                        if b - 1 > p {
                            assert(!text_lt(ov[b - 1], ov[p as int]));
                        }
                        if text_lt(ov[b - 1], x@) {
                            lemma_text_lt_trans(ov[b - 1], x@, ov[p as int], 0);
                            lemma_text_lt_irrefl(ov[p as int], 0);
                        }
                    }
                } else if a < p && b < p {
                    assert(nv[a] == ov[a] && nv[b] == ov[b]);
                } else if a < p && b > p {
                    assert(nv[a] == ov[a] && nv[b] == ov[b - 1]);
                } else {
                    assert(nv[a] == ov[a - 1] && nv[b] == ov[b - 1]);
                }
            }
        }
        i = i + 1;
    }
    assert(vv.take(v@.len() as int) =~= vv);
    out
}

/// The names under `/sys/class/net` without `lo`, in order.
pub open spec fn without_lo(names: Seq<Seq<char>>, n: int) -> Seq<Seq<char>>
    decreases n,
{
    if n <= 0 {
        seq![]
    } else if names[n - 1] == "lo"@ {
        without_lo(names, n - 1)
    } else {
        without_lo(names, n - 1).push(names[n - 1])
    }
}

/// The attachable interfaces from the names under `/sys/class/net`: all
/// but `lo`, sorted.
pub fn sysfs_attachable(names: Vec<String>) -> (r: Vec<String>)
    ensures
        names_sorted(r@.map_values(|s: String| s@)),
        r@.map_values(|s: String| s@).to_multiset() == without_lo(
            names@.map_values(|s: String| s@),
            names@.len() as int,
        ).to_multiset(),
{
    let ghost nv = names@.map_values(|s: String| s@);
    let mut kept: Vec<String> = Vec::new();
    let mut i: usize = 0;
    while i < names.len()
        invariant
            i <= names@.len(),
            nv == names@.map_values(|s: String| s@),
            kept@.map_values(|s: String| s@) == without_lo(nv, i as int),
        decreases names@.len() - i,
    {
        let ghost k0 = kept@.map_values(|s: String| s@);
        assert(nv[i as int] == names@[i as int]@);
        if !text_is(&names[i], "lo") {
            kept.push(names[i].clone());
            assert(kept@.map_values(|s: String| s@) =~= k0.push(nv[i as int]));
        }
        i = i + 1;
    }
    sort_names(kept)
}

} // verus!
