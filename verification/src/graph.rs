//! The static import graph of a page: sources, edges and the level walk that
//! loads them.
use vstd::prelude::*;

verus! {

/// The name of the `i`-th synthetic module.
pub open spec fn synthetic_url(i: nat) -> Seq<char> {
    "/mod_"@ + crate::text::decimal(i) + ".js"@
}

/// The import line for the `i`-th synthetic module.
pub open spec fn synthetic_import(i: nat) -> Seq<char> {
    "import \"./mod_"@ + crate::text::decimal(i) + ".js\";\n"@
}

/// The source of the `i`-th of `n` synthetic modules: a binary tree in which
/// each module imports its two children and counts its own evaluation.
pub open spec fn synthetic_source(i: nat, n: nat) -> Seq<char> {
    (if 2 * i + 1 < n {
        synthetic_import(2 * i + 1)
    } else {
        Seq::empty()
    }) + (if 2 * i + 2 < n {
        synthetic_import(2 * i + 2)
    } else {
        Seq::empty()
    }) + "globalThis.__loaded = (globalThis.__loaded || 0) + 1;\n"@ + "export const id = "@
        + crate::text::decimal(i) + ";\n"@
}

fn push_import(body: &mut String, child: u64)
    ensures
        final(body)@ == old(body)@ + synthetic_import(child as nat),
{
    body.append("import \"./mod_");
    crate::text::push_decimal(body, child);
    body.append(".js\";\n");
    assert(body@ =~= old(body)@ + synthetic_import(child as nat));
}

/// The sources of `n` synthetic modules, by name, in order.
pub fn synthetic_sources(n: usize) -> (r: Vec<(String, String)>)
    ensures
        r@.len() == n,
        forall|i: int|
            0 <= i < n ==> (#[trigger] r@[i]).0@ == synthetic_url(i as nat) && r@[i].1@
                == synthetic_source(i as nat, n as nat),
{
    let mut sources: Vec<(String, String)> = Vec::new();
    let mut i: usize = 0;
    while i < n
        invariant
            i <= n,
            sources@.len() == i,
            forall|k: int|
                0 <= k < i ==> (#[trigger] sources@[k]).0@ == synthetic_url(k as nat)
                    && sources@[k].1@ == synthetic_source(k as nat, n as nat),
        decreases n - i,
    {
        let mut body = String::new();
        if i < n / 2 {
            push_import(&mut body, (2 * i + 1) as u64);
        }
        let ghost one = body@;
        if n > 2 && i < (n - 1) / 2 {
            push_import(&mut body, (2 * i + 2) as u64);
        }
        let ghost two = body@;
        body.append("globalThis.__loaded = (globalThis.__loaded || 0) + 1;\n");
        body.append("export const id = ");
        crate::text::push_decimal(&mut body, i as u64);
        body.append(";\n");
        proof {
            let first = if 2 * i + 1 < n {
                synthetic_import((2 * i + 1) as nat)
            } else {
                Seq::<char>::empty()
            };
            let second = if 2 * i + 2 < n {
                synthetic_import((2 * i + 2) as nat)
            } else {
                Seq::<char>::empty()
            };
            assert(one =~= first);
            assert(two =~= first + second);
            assert(body@ =~= synthetic_source(i as nat, n as nat));
        }
        let mut name = String::new();
        name.append("/mod_");
        crate::text::push_decimal(&mut name, i as u64);
        name.append(".js");
        assert(name@ =~= synthetic_url(i as nat));
        sources.push((name, body));
        i = i + 1;
    }
    sources
}

/// The synthetic modules have names of their own.
pub proof fn law_synthetic_modules_are_told_apart(i: nat, j: nat)
    requires
        synthetic_url(i) == synthetic_url(j),
    ensures
        i == j,
{
    let a = crate::text::decimal(i);
    let b = crate::text::decimal(j);
    let head = "/mod_"@.len() as int;
    let tail = ".js"@.len() as int;
    assert(synthetic_url(i).len() == head + a.len() + tail);
    assert(synthetic_url(i).subrange(head, head + a.len()) =~= a);
    assert(synthetic_url(j).subrange(head, head + b.len()) =~= b);
    crate::text::law_decimal_reads_back(i);
    crate::text::law_decimal_reads_back(j);
}

/// Each module imports the two below it in the tree, where the tree is that large,
/// and is otherwise the same whatever the size.
pub proof fn law_synthetic_modules_import_their_children(i: nat, n: nat)
    ensures
        ({
            let alone = synthetic_source(i, 0);
            &&& n <= 2 * i + 1 ==> synthetic_source(i, n) == alone
            &&& n == 2 * i + 2 ==> synthetic_source(i, n) == synthetic_import(2 * i + 1) + alone
            &&& n > 2 * i + 2 ==> synthetic_source(i, n) == synthetic_import(2 * i + 1)
                + synthetic_import(2 * i + 2) + alone
        }),
{
    let alone = synthetic_source(i, 0);
    let tail = "globalThis.__loaded = (globalThis.__loaded || 0) + 1;\n"@ + "export const id = "@
        + crate::text::decimal(i) + ";\n"@;
    assert(alone =~= tail);
    if n == 2 * i + 2 {
        assert(synthetic_source(i, n) =~= synthetic_import(2 * i + 1) + alone);
    }
    if n > 2 * i + 2 {
        assert(synthetic_source(i, n) =~= synthetic_import(2 * i + 1) + synthetic_import(
            2 * i + 2,
        ) + alone);
    }
}

} // verus!
