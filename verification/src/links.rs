//! The homepage's friend links: a fixed table, with two titles that follow
//! the requested locale.

use vstd::prelude::*;

verus! {

/// The fixed link table. Only two titles depend on the locale; every
/// address is fixed.
pub fn friend_links(locale: Option<&str>) -> (r: [(&'static str, &'static str); 17])
    ensures
        r@[0].0@ == "OI Wiki"@,
        r@[0].1@ == "https://oi.wiki"@,
        r@[13].1@ == "https://www.bananaspace.org/"@,
        r@[16].1@ == "https://leanoj.org/"@,
        locale is None ==> r@[13].0@ == "\u{9999}\u{8549}\u{7a7a}\u{95f4}"@,
{
    let banana = match locale {
        Some(l) => {
            if crate::names::str_eq_chars(l, "en_US") {
                "Banana Space"
            } else if crate::names::str_eq_chars(l, "ja_JP") {
                "\u{30d0}\u{30ca}\u{30ca}\u{30b9}\u{30da}\u{30fc}\u{30b9}"
            } else {
                "\u{9999}\u{8549}\u{7a7a}\u{95f4}"
            }
        },
        None => "\u{9999}\u{8549}\u{7a7a}\u{95f4}",
    };
    let ansar = match locale {
        Some(l) => {
            if crate::names::str_eq_chars(l, "en_US") {
                "Lean Online Judge by Ansar"
            } else if crate::names::str_eq_chars(l, "ja_JP") {
                "Ansar\u{306e}Lean\u{30aa}\u{30f3}\u{30e9}\u{30a4}\u{30f3}\u{8a55}\u{4fa1}"
            } else {
                "Ansar\u{7684}Lean Online Judge"
            }
        },
        None => "Ansar\u{7684}Lean Online Judge",
    };
    [
        ("OI Wiki", "https://oi.wiki"),
        ("Universal Online Judge", "https://uoj.ac"),
        ("LibreOJ", "https://loj.ac"),
        ("Luogu", "https://www.luogu.com.cn"),
        ("QOJ", "https://qoj.ac"),
        ("PJudge", "https://pjudge.ac"),
        ("HydroOJ", "https://hydro.ac"),
        ("Vijos", "https://vijos.org"),
        ("OIerDb", "https://oier.baoshuo.dev"),
        ("The Lean Language Reference", "https://lean-lang.org/doc/reference/latest/"),
        ("Mathlib4 Documentation", "https://leanprover-community.github.io/mathlib4_docs/"),
        ("FPiL4", "https://lean-lang.org/functional_programming_in_lean/"),
        ("TPiL4", "https://lean-lang.org/theorem_proving_in_lean4/"),
        (banana, "https://www.bananaspace.org/"),
        ("Art of Problem Solving", "https://artofproblemsolving.com/"),
        ("Lean4 Zulip Server", "https://leanprover.zulipchat.com/"),
        (ansar, "https://leanoj.org/"),
    ]
}

} // verus!
