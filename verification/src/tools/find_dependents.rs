//! The answer of the `find_dependents` tool.
use vstd::prelude::*;

use crate::engine::dependency_engine::{dep_view, query_dependents};
use crate::engine::state::AppState;
use crate::std_text::string_from_chars;
use crate::strmap::views;
use crate::text::{
    chars_of, concat_map, contains, contains_str, dec, push_seq, push_str, starts_with, starts_with_str,
    sorted_elems, usize_dec,
};

verus! {

/// The reminder added for shared packages and contracts.
pub const SHARED_PACKAGE_GUIDANCE: &'static str = "\n════════════════════════════════════════════════════════════════════════════════\n💡 GUIDANCE OPÉRATIONNELLE :\n📦 Pour modifier ce package partagé : Skill `.agents/skills/global/shared-npm-package-change/SKILL.md`\n🛑 RÈGLE DU STOP IMMÉDIAT : Après `yarn build` et `yarn changeset add`, STOP TOTAL !\n   Interdiction formelle d'éditer les microservices consommateurs avant publication par la CI.\n════════════════════════════════════════════════════════════════════════════════\n";

/// A target that names a shared package or contract.
pub open spec fn shared_target(t: Seq<char>) -> bool {
    starts_with(t, "@volontariapp"@) || contains(t, "domain-"@) || contains(t, "messaging"@) || contains(
        t,
        "contracts"@,
    )
}

/// The list of importing files.
pub open spec fn importers_text(target: Seq<char>, files: Seq<Seq<char>>) -> Seq<char> {
    "Le symbole/package '"@ + target + "' est importé dans "@ + dec(files.len()) + " fichier(s) :\n\n"@
        + concat_map(files.len(), |i: int| "- "@ + files[i] + "\n"@)
}

/// The answer when nothing imports the target.
pub open spec fn no_importer_text(target: Seq<char>) -> Seq<char> {
    "Aucune dépendance trouvée pour '"@ + target + "' dans le graphe en mémoire."@
}

/// The answer of `find_dependents` for the files found (sorted), if any.
pub open spec fn dependents_text(target: Seq<char>, files: Option<Seq<Seq<char>>>) -> Seq<char> {
    match files {
        Some(fs) => importers_text(target, fs) + if shared_target(target) {
            SHARED_PACKAGE_GUIDANCE@
        } else {
            seq![]
        },
        None => no_importer_text(target),
    }
}

/// Appends the list of importing files.
pub fn push_importers(out: &mut Vec<char>, target: &str, files: &Vec<String>)
    ensures
        final(out)@ == old(out)@ + importers_text(target@, views(files@)),
{
    let ghost start = out@;
    let ghost fs = views(files@);
    push_str(out, "Le symbole/package '");
    push_str(out, target);
    push_str(out, "' est importé dans ");
    let n = usize_dec(files.len());
    push_seq(out, &n);
    push_str(out, " fichier(s) :\n\n");
    let ghost head = out@;
    let ghost f = |i: int| "- "@ + fs[i] + "\n"@;
    let mut i: usize = 0;
    while i < files.len()
        invariant
            fs == views(files@),
            f == (|i: int| "- "@ + fs[i] + "\n"@),
            0 <= i <= files@.len(),
            out@ == head + concat_map(i as nat, f),
        decreases files@.len() - i,
    {
        push_str(out, "- ");
        push_str(out, files[i].as_str());
        push_str(out, "\n");
        assert(out@ =~= head + concat_map(i as nat, f) + f(i as int));
        i = i + 1;
    }
    assert(out@ =~= start + importers_text(target@, fs));
}

/// The answer of `find_dependents` for `target`: the files that import it,
/// in increasing order, with a reminder for shared packages and contracts;
/// or a sentence that nothing imports it.
pub fn dependents_report(state: &AppState, target: &str) -> (r: String)
    ensures
        r@ == dependents_text(
            target@,
            if dep_view(state.dependencies).contains_key(target@) {
                Some(sorted_elems(dep_view(state.dependencies)[target@]))
            } else {
                None
            },
        ),
{
    let mut out: Vec<char> = Vec::new();
    match query_dependents(state, target) {
        Some(files) => {
            proof {
                let s = dep_view(state.dependencies)[target@];
                crate::text::lemma_is_sorted_elems(views(files@), s);
            }
            push_importers(&mut out, target, &files);
            let t = chars_of(target);
            if starts_with_str(&t, "@volontariapp") || contains_str(&t, "domain-") || contains_str(&t, "messaging")
                || contains_str(&t, "contracts") {
                push_str(&mut out, SHARED_PACKAGE_GUIDANCE);
            }
        },
        None => {
            push_str(&mut out, "Aucune dépendance trouvée pour '");
            push_str(&mut out, target);
            push_str(&mut out, "' dans le graphe en mémoire.");
        },
    }
    string_from_chars(&out)
}

} // verus!
