//! The description of the host that opens a Markdown report.
//!
//! What the host is like is found out elsewhere and handed in as plain
//! values; this module only turns those values into text.

use crate::text::{
    decimal, digit, digit_char, lemma_text_lt_asymmetric, lemma_text_lt_irreflexive,
    lemma_text_lt_total, lemma_text_lt_transitive, push_decimal, text_before, text_lt,
};
use vstd::prelude::*;
use vstd::string::StringExecFns;

verus! {

/// Bytes in one GiB.
pub const GIB: u128 = 1_073_741_824;

/// What is known of the machine and the build.
#[derive(Debug)]
pub struct HostInfo {
    pub cpu_brand: String,
    pub physical_cores: usize,
    pub logical_threads: usize,
    pub total_memory_bytes: u64,
    pub os_name: String,
    pub os_version: String,
    pub kernel_version: String,
    pub compiler_version: String,
    /// Names of the instruction-set extensions that were detected, in any
    /// order and with or without repeats.
    pub cpu_flags: Vec<String>,
}

/// The texts of a list of strings.
pub open spec fn names_of(list: Seq<String>) -> Seq<Seq<char>> {
    Seq::new(list.len(), |i: int| list[i]@)
}

/// Every name comes before all that follow it, so none occurs twice.
pub open spec fn strictly_ascending(names: Seq<Seq<char>>) -> bool {
    forall|i: int, j: int| 0 <= i < j < names.len() ==> text_lt(names[i], names[j])
}

/// `names`, already in order, with `name` in its place, unless it is there
/// already.
pub open spec fn insert_name(names: Seq<Seq<char>>, name: Seq<char>) -> Seq<Seq<char>>
    decreases names.len(),
{
    if names.len() == 0 {
        names.push(name)
    } else if text_lt(name, names.last()) {
        insert_name(names.drop_last(), name).push(names.last())
    } else if names.last() == name {
        names
    } else {
        names.push(name)
    }
}

/// The names in order, each once.
pub open spec fn sorted_names(names: Seq<Seq<char>>) -> Seq<Seq<char>>
    decreases names.len(),
{
    if names.len() == 0 {
        names
    } else {
        insert_name(sorted_names(names.drop_last()), names.last())
    }
}

/// The names in a row, with a comma and a space between neighbours.
pub open spec fn joined(names: Seq<Seq<char>>) -> Seq<char>
    decreases names.len(),
{
    if names.len() == 0 {
        Seq::empty()
    } else if names.len() == 1 {
        names[0]
    } else {
        joined(names.drop_last()) + ", "@ + names.last()
    }
}

/// The list of detected extensions as the report shows it: sorted, without
/// repeats, separated by commas; `unknown` where nothing was detected.
pub open spec fn flags_text(detected: Seq<Seq<char>>) -> Seq<char> {
    if detected.len() == 0 {
        "unknown"@
    } else {
        joined(sorted_names(detected))
    }
}

/// Tenths of a GiB in `bytes`, rounded to the nearest tenth, and to the even
/// one where two are equally near.
pub open spec fn gib_tenths(bytes: nat) -> nat {
    let scaled = bytes * 10;
    let whole = scaled / (GIB as nat);
    let rest = scaled % (GIB as nat);
    let half = GIB as nat / 2;
    if rest > half || (rest == half && whole % 2 == 1) {
        whole + 1
    } else {
        whole
    }
}

/// An amount of memory in GiB with one decimal place.
pub open spec fn gib_text(bytes: nat) -> Seq<char> {
    decimal(gib_tenths(bytes) / 10) + "."@ + seq![digit_char(gib_tenths(bytes) % 10)]
}

/// The block of lines that describes the host. Each line ends in two spaces,
/// which Markdown reads as a line break, and an empty line closes the block.
pub open spec fn metadata_text(info: HostInfo) -> Seq<char> {
    "**Host:** "@ + info.cpu_brand@ + "  \n**Cores/Threads:** "@ + decimal(
        info.physical_cores as nat,
    ) + "/"@ + decimal(info.logical_threads as nat) + "  \n**Memory:** "@ + gib_text(
        info.total_memory_bytes as nat,
    ) + " GiB  \n**OS:** "@ + info.os_name@ + " "@ + info.os_version@ + " (kernel "@
        + info.kernel_version@ + ")  \n**Compiler:** rustc "@ + info.compiler_version@
        + "  \n**Build:** portable | target-cpu=native  \n**CPU flags:** "@ + flags_text(
        names_of(info.cpu_flags@),
    ) + "  \n\n"@
}

proof fn lemma_insert_name(names: Seq<Seq<char>>, name: Seq<char>)
    requires
        strictly_ascending(names),
    ensures
        strictly_ascending(insert_name(names, name)),
        forall|x: Seq<char>| #[trigger]
            insert_name(names, name).contains(x) <==> names.contains(x) || x == name,
    decreases names.len(),
{
    let out = insert_name(names, name);
    if names.len() == 0 {
        assert(out[0] == name);
    } else if text_lt(name, names.last()) {
        let front = names.drop_last();
        let last = names.last();
        let inner = insert_name(front, name);
        assert(strictly_ascending(front)) by {
            assert forall|i: int, j: int| 0 <= i < j < front.len() implies text_lt(
                front[i],
                front[j],
            ) by {
                assert(front[i] == names[i] && front[j] == names[j]);
            }
        }
        lemma_insert_name(front, name);
        assert forall|x: Seq<char>| out.contains(x) <==> names.contains(x) || x == name by {
            if out.contains(x) {
                let i = choose|i: int| 0 <= i < out.len() && out[i] == x;
                if i < inner.len() {
                    assert(inner[i] == x);
                    assert(inner.contains(x));
                    if front.contains(x) {
                        let j = choose|j: int| 0 <= j < front.len() && front[j] == x;
                        assert(names[j] == x);
                    }
                } else {
                    assert(names[names.len() - 1] == x);
                }
            }
            if names.contains(x) {
                let j = choose|j: int| 0 <= j < names.len() && names[j] == x;
                if j < front.len() {
                    assert(front[j] == x);
                    assert(front.contains(x));
                    assert(inner.contains(x));
                    let i = choose|i: int| 0 <= i < inner.len() && inner[i] == x;
                    assert(out[i] == x);
                } else {
                    assert(out[out.len() - 1] == x);
                }
            }
            if x == name {
                assert(front.contains(x) || x == name);
                assert(inner.contains(x));
                let i = choose|i: int| 0 <= i < inner.len() && inner[i] == x;
                assert(out[i] == x);
            }
        }
        assert forall|i: int, j: int| 0 <= i < j < out.len() implies text_lt(out[i], out[j]) by {
            if j < inner.len() {
                assert(out[i] == inner[i] && out[j] == inner[j]);
            } else {
                assert(out[i] == inner[i]);
                assert(inner.contains(inner[i]));
                if front.contains(inner[i]) {
                    let k = choose|k: int| 0 <= k < front.len() && front[k] == inner[i];
                    assert(text_lt(names[k], names[names.len() - 1]));
                }
            }
        }
    } else if names.last() == name {
        assert(names[names.len() - 1] == name);
    } else {
        lemma_text_lt_total(name, names.last());
        assert forall|x: Seq<char>| out.contains(x) <==> names.contains(x) || x == name by {
            if out.contains(x) {
                let i = choose|i: int| 0 <= i < out.len() && out[i] == x;
                if i < names.len() {
                    assert(names[i] == x);
                }
            }
            if names.contains(x) {
                let j = choose|j: int| 0 <= j < names.len() && names[j] == x;
                assert(out[j] == x);
            }
            if x == name {
                assert(out[out.len() - 1] == x);
            }
        }
        assert forall|i: int, j: int| 0 <= i < j < out.len() implies text_lt(out[i], out[j]) by {
            if j < names.len() {
                assert(out[i] == names[i] && out[j] == names[j]);
            } else {
                assert(out[i] == names[i]);
                if i < names.len() - 1 {
                    assert(text_lt(names[i], names[names.len() - 1]));
                    lemma_text_lt_transitive(names[i], names.last(), name);
                }
            }
        }
    }
}

/// The sorted list is in order, holds no name twice, and holds exactly the
/// names that were detected.
pub proof fn lemma_sorted_names(names: Seq<Seq<char>>)
    ensures
        strictly_ascending(sorted_names(names)),
        forall|x: Seq<char>|
            #![trigger sorted_names(names).contains(x)]
            #![trigger names.contains(x)]
            sorted_names(names).contains(x) <==> names.contains(x),
    decreases names.len(),
{
    if names.len() > 0 {
        let front = names.drop_last();
        lemma_sorted_names(front);
        lemma_insert_name(sorted_names(front), names.last());
        assert forall|x: Seq<char>| sorted_names(names).contains(x) <==> names.contains(x) by {
            if names.contains(x) {
                let j = choose|j: int| 0 <= j < names.len() && names[j] == x;
                if j < front.len() {
                    assert(front[j] == x);
                }
            }
            if front.contains(x) {
                let j = choose|j: int| 0 <= j < front.len() && front[j] == x;
                assert(names[j] == x);
            }
            assert(names[names.len() - 1] == names.last());
        }
    }
}

proof fn lemma_ascending_lists_agree(t: Seq<Seq<char>>, u: Seq<Seq<char>>)
    requires
        strictly_ascending(t),
        strictly_ascending(u),
        forall|x: Seq<char>| t.contains(x) <==> u.contains(x),
    ensures
        t == u,
    decreases t.len(),
{
    if t.len() == 0 {
        if u.len() > 0 {
            assert(u.contains(u[0]));
        }
        assert(t =~= u);
    } else {
        let a = t.last();
        assert(t[t.len() - 1] == a);
        assert(t.contains(a));
        let ia = choose|i: int| 0 <= i < u.len() && u[i] == a;
        let b = u.last();
        assert(u[u.len() - 1] == b);
        assert(u.contains(b));
        let ib = choose|i: int| 0 <= i < t.len() && t[i] == b;
        if a != b {
            assert(text_lt(u[ia], u[u.len() - 1]));
            assert(text_lt(t[ib], t[t.len() - 1]));
            lemma_text_lt_asymmetric(a, b);
        }
        let front = t.drop_last();
        let back = u.drop_last();
        assert forall|x: Seq<char>| front.contains(x) <==> back.contains(x) by {
            if front.contains(x) {
                let i = choose|i: int| 0 <= i < front.len() && front[i] == x;
                assert(t[i] == x);
                assert(text_lt(t[i], t[t.len() - 1]));
                lemma_text_lt_irreflexive(a);
                assert(u.contains(x));
                let j = choose|j: int| 0 <= j < u.len() && u[j] == x;
                assert(back[j] == x);
            }
            if back.contains(x) {
                let i = choose|i: int| 0 <= i < back.len() && back[i] == x;
                assert(u[i] == x);
                assert(text_lt(u[i], u[u.len() - 1]));
                lemma_text_lt_irreflexive(b);
                assert(t.contains(x));
                let j = choose|j: int| 0 <= j < t.len() && t[j] == x;
                assert(front[j] == x);
            }
        }
        assert(strictly_ascending(front)) by {
            assert forall|i: int, j: int| 0 <= i < j < front.len() implies text_lt(
                front[i],
                front[j],
            ) by {
                assert(front[i] == t[i] && front[j] == t[j]);
            }
        }
        assert(strictly_ascending(back)) by {
            assert forall|i: int, j: int| 0 <= i < j < back.len() implies text_lt(
                back[i],
                back[j],
            ) by {
                assert(back[i] == u[i] && back[j] == u[j]);
            }
        }
        lemma_ascending_lists_agree(front, back);
        assert(t =~= front.push(a));
        assert(u =~= back.push(b));
    }
}

/// There is one list only that is in order, without repeats, and holds
/// exactly the detected names.
pub proof fn lemma_sorted_names_unique(t: Seq<Seq<char>>, names: Seq<Seq<char>>)
    requires
        strictly_ascending(t),
        forall|x: Seq<char>| t.contains(x) <==> names.contains(x),
    ensures
        t == sorted_names(names),
{
    lemma_sorted_names(names);
    lemma_ascending_lists_agree(t, sorted_names(names));
}

/// Sorts the names and drops the repeats.
pub fn sort_names(detected: &Vec<String>) -> (sorted: Vec<String>)
    ensures
        names_of(sorted@) == sorted_names(names_of(detected@)),
{
    let ghost all = names_of(detected@);
    let mut out: Vec<String> = Vec::new();
    let mut i: usize = 0;
    assert(all.subrange(0, 0) =~= Seq::<Seq<char>>::empty());
    assert(names_of(out@) =~= sorted_names(all.subrange(0, 0)));
    while i < detected.len()
        invariant
            i <= detected.len(),
            all == names_of(detected@),
            names_of(out@) == sorted_names(all.subrange(0, i as int)),
        decreases detected.len() - i,
    {
        let name: &String = &detected[i];
        let ghost before = names_of(out@);
        let ghost kept = out@;
        let mut p: usize = out.len();
        assert(before.subrange(0, p as int) =~= before);
        assert(before.subrange(p as int, before.len() as int) =~= Seq::<Seq<char>>::empty());
        while p > 0 && text_before(name.as_str(), out[p - 1].as_str())
            invariant
                p <= out.len(),
                out@ == kept,
                before == names_of(kept),
                insert_name(before, name@) == insert_name(before.subrange(0, p as int), name@)
                    + before.subrange(p as int, before.len() as int),
            decreases p,
        {
            proof {
                let head = before.subrange(0, p as int);
                assert(head.last() == before[p - 1]);
                assert(before[p - 1] == out@[p - 1]@);
                assert(head.drop_last() =~= before.subrange(0, p - 1));
                assert(insert_name(before.subrange(0, p - 1), name@).push(before[p - 1])
                    + before.subrange(p as int, before.len() as int) =~= insert_name(
                    before.subrange(0, p - 1),
                    name@,
                ) + before.subrange(p - 1, before.len() as int));
            }
            p -= 1;
        }
        let ghost head = before.subrange(0, p as int);
        let mut known = false;
        if p > 0 {
            proof {
                assert(head.last() == before[p - 1]);
                assert(before[p - 1] == out@[p - 1]@);
            }
            known = out[p - 1] == *name;
        }
        if known {
            proof {
                assert(insert_name(head, name@) == head);
                assert(head + before.subrange(p as int, before.len() as int) =~= before);
            }
        } else {
            out.insert(p, name.clone());
            proof {
                assert(insert_name(head, name@) == head.push(name@));
                assert(names_of(out@) =~= head.push(name@) + before.subrange(
                    p as int,
                    before.len() as int,
                ));
            }
        }
        proof {
            let next = all.subrange(0, i + 1);
            assert(next.drop_last() =~= all.subrange(0, i as int));
            assert(next.last() == name@);
        }
        i += 1;
    }
    assert(all.subrange(0, detected.len() as int) =~= all);
    out
}

fn push_joined(out: &mut String, names: &Vec<String>)
    ensures
        final(out)@ == old(out)@ + joined(names_of(names@)),
{
    let ghost all = names_of(names@);
    let mut i: usize = 0;
    assert(all.subrange(0, 0) =~= Seq::<Seq<char>>::empty());
    assert(out@ =~= old(out)@ + joined(all.subrange(0, 0)));
    while i < names.len()
        invariant
            i <= names.len(),
            all == names_of(names@),
            out@ == old(out)@ + joined(all.subrange(0, i as int)),
        decreases names.len() - i,
    {
        if i > 0 {
            out.append(", ");
        }
        out.append(names[i].as_str());
        proof {
            let next = all.subrange(0, i + 1);
            assert(next.drop_last() =~= all.subrange(0, i as int));
            assert(next.last() == names@[i as int]@);
            assert(next[0] == all[0]);
            assert(out@ =~= old(out)@ + joined(next));
        }
        i += 1;
    }
    assert(all.subrange(0, names.len() as int) =~= all);
}

/// Appends the list of detected extensions to `out`.
pub fn push_flags(out: &mut String, detected: &Vec<String>)
    ensures
        final(out)@ == old(out)@ + flags_text(names_of(detected@)),
{
    if detected.len() == 0 {
        out.append("unknown");
    } else {
        let sorted = sort_names(detected);
        push_joined(out, &sorted);
    }
}

/// The list of detected extensions as text.
pub fn format_flags(detected: &Vec<String>) -> (text: String)
    ensures
        text@ == flags_text(names_of(detected@)),
{
    let mut text = String::new();
    push_flags(&mut text, detected);
    assert(text@ =~= flags_text(names_of(detected@)));
    text
}

/// An amount of memory in tenths of a GiB.
pub fn memory_gib_tenths(bytes: u64) -> (tenths: u64)
    ensures
        tenths == gib_tenths(bytes as nat),
{
    let scaled: u128 = (bytes as u128) * 10;
    let whole: u128 = scaled / GIB;
    let rest: u128 = scaled % GIB;
    let half: u128 = GIB / 2;
    assert(whole <= 0x40_0000_0000) by {
        vstd::arithmetic::div_mod::lemma_div_is_ordered(
            scaled as int,
            0x40_0000_0000 * GIB as int,
            GIB as int,
        );
        vstd::arithmetic::div_mod::lemma_div_multiples_vanish(0x40_0000_0000, GIB as int);
    }
    if rest > half || (rest == half && whole % 2 == 1) {
        (whole + 1) as u64
    } else {
        whole as u64
    }
}

fn push_gib(out: &mut String, bytes: u64)
    ensures
        final(out)@ == old(out)@ + gib_text(bytes as nat),
{
    let tenths = memory_gib_tenths(bytes);
    push_decimal(out, (tenths / 10) as u128);
    out.append(".");
    out.push(digit((tenths % 10) as u8));
    assert(out@ =~= old(out)@ + gib_text(bytes as nat));
}

/// Renders the description of the host.
pub fn metadata_block(info: &HostInfo) -> (text: String)
    ensures
        text@ == metadata_text(*info),
{
    let mut text = String::new();
    text.append("**Host:** ");
    text.append(info.cpu_brand.as_str());
    text.append("  \n**Cores/Threads:** ");
    push_decimal(&mut text, info.physical_cores as u128);
    text.append("/");
    push_decimal(&mut text, info.logical_threads as u128);
    text.append("  \n**Memory:** ");
    push_gib(&mut text, info.total_memory_bytes);
    text.append(" GiB  \n**OS:** ");
    text.append(info.os_name.as_str());
    text.append(" ");
    text.append(info.os_version.as_str());
    text.append(" (kernel ");
    text.append(info.kernel_version.as_str());
    text.append(")  \n**Compiler:** rustc ");
    text.append(info.compiler_version.as_str());
    text.append("  \n**Build:** portable | target-cpu=native  \n**CPU flags:** ");
    push_flags(&mut text, &info.cpu_flags);
    text.append("  \n\n");
    assert(text@ =~= metadata_text(*info));
    text
}

} // verus!
