//! Boot-trusted process authority of the Ubuntu capsule: which program and
//! project-root references a request may name, and the environment its
//! bindings render to. Nothing here consults the host.
use vstd::prelude::*;
use crate::text::str_eq;

verus! {

/// The value of one sealed environment binding.
#[derive(Clone, Debug, PartialEq, Eq)]
pub enum BindingValue {
    Literal(String),
    ProjectRoot(String),
    PrivateArtifact(String),
}

/// Boot-trusted resource references: the program references, and the project
/// roots and private artifacts each with the text of its host path.
#[derive(Clone, Debug, PartialEq, Eq)]
pub struct LaunchAuthority {
    pub programs: Vec<String>,
    pub roots: Vec<(String, String)>,
    pub artifacts: Vec<(String, String)>,
}

/// Position of the first reference `r` among `refs`.
pub open spec fn position(refs: Seq<Seq<char>>, r: Seq<char>) -> Option<int>
    decreases refs.len(),
{
    if refs.len() == 0 {
        None
    } else {
        match position(refs.drop_last(), r) {
            Some(i) => Some(i),
            None => if refs.last() == r {
                Some(refs.len() - 1)
            } else {
                None
            },
        }
    }
}

/// No reference occurs twice, as in the keyed maps an authority stands for.
pub open spec fn refs_distinct(refs: Seq<Seq<char>>) -> bool {
    forall|i: int, j: int| 0 <= i < j < refs.len() ==> refs[i] != refs[j]
}

proof fn lemma_position_names(refs: Seq<Seq<char>>, r: Seq<char>)
    ensures
        position(refs, r) matches Some(k) ==> 0 <= k < refs.len() && refs[k] == r,
    decreases refs.len(),
{
    if refs.len() > 0 {
        lemma_position_names(refs.drop_last(), r);
    }
}

/// With distinct references an authority is a map: the entry found for a
/// reference is the one entry of that reference.
pub proof fn law_distinct_refs_are_found_by_name(refs: Seq<Seq<char>>, r: Seq<char>, i: int)
    requires
        refs_distinct(refs),
        0 <= i < refs.len(),
        refs[i] == r,
    ensures
        position(refs, r) == Some(i),
    decreases refs.len(),
{
    let rest = refs.drop_last();
    lemma_position_names(rest, r);
    if i < refs.len() - 1 {
        assert(refs_distinct(rest)) by {
            assert forall|a: int, b: int| 0 <= a < b < rest.len() implies rest[a] != rest[b] by {
                assert(rest[a] == refs[a] && rest[b] == refs[b]);
            }
        }
        assert(rest[i] == refs[i]);
        law_distinct_refs_are_found_by_name(rest, r, i);
    } else if let Some(k) = position(rest, r) {
        assert(rest[k] == refs[k]);
    }
}

/// The reference texts of `refs`.
pub open spec fn ref_texts(refs: Seq<String>) -> Seq<Seq<char>> {
    refs.map_values(|s: String| s@)
}

/// The reference texts of resource entries.
pub open spec fn entry_refs(entries: Seq<(String, String)>) -> Seq<Seq<char>> {
    entries.map_values(|e: (String, String)| e.0@)
}

pub const PROGRAM_REFUSAL: &'static str = "program reference is not boot-authorized";
pub const ROOT_REFUSAL: &'static str = "project-root reference is not boot-authorized";
pub const BINDING_REFUSAL: &'static str = "binding references wrong or unavailable resource kind";
pub const ARTIFACT_REFUSAL: &'static str = "private artifact is not boot-authorized";

proof fn lemma_position_bounds(refs: Seq<Seq<char>>, r: Seq<char>)
    ensures
        position(refs, r) matches Some(k) ==> 0 <= k < refs.len() && refs[k] == r,
    decreases refs.len(),
{
    if refs.len() > 0 {
        lemma_position_bounds(refs.drop_last(), r);
    }
}

proof fn lemma_position_prefix(refs: Seq<Seq<char>>, r: Seq<char>, k: int)
    requires
        0 <= k <= refs.len(),
        position(refs.take(k), r) is Some,
    ensures
        position(refs, r) == position(refs.take(k), r),
    decreases refs.len() - k,
{
    if k < refs.len() {
        assert(refs.take(k + 1).drop_last() =~= refs.take(k));
        lemma_position_prefix(refs, r, k + 1);
    } else {
        assert(refs.take(k) =~= refs);
    }
}

fn find(refs: &Vec<String>, r: &str) -> (i: Option<usize>)
    ensures
        i matches Some(k) ==> k < refs@.len(),
        match position(ref_texts(refs@), r@) {
            Some(k) => i matches Some(j) && j as int == k,
            None => i is None,
        },
{
    proof {
        lemma_position_bounds(ref_texts(refs@), r@);
    }
    let ghost texts = ref_texts(refs@);
    for i in 0..refs.len()
        invariant
            texts == ref_texts(refs@),
            position(texts.take(i as int), r@) is None,
    {
        assert(texts.take(i + 1).drop_last() =~= texts.take(i as int));
        assert(texts[i as int] == refs@[i as int]@);
        if str_eq(refs[i].as_str(), r) {
            proof {
                lemma_position_prefix(texts, r@, i + 1);
            }
            return Some(i);
        }
    }
    assert(texts.take(refs@.len() as int) =~= texts);
    None
}

fn find_entry(entries: &Vec<(String, String)>, r: &str) -> (i: Option<usize>)
    ensures
        i matches Some(k) ==> k < entries@.len(),
        match position(entry_refs(entries@), r@) {
            Some(k) => i matches Some(j) && j as int == k,
            None => i is None,
        },
{
    proof {
        lemma_position_bounds(entry_refs(entries@), r@);
    }
    let ghost texts = entry_refs(entries@);
    for i in 0..entries.len()
        invariant
            texts == entry_refs(entries@),
            position(texts.take(i as int), r@) is None,
    {
        assert(texts.take(i + 1).drop_last() =~= texts.take(i as int));
        assert(texts[i as int] == entries@[i as int].0@);
        if str_eq(entries[i].0.as_str(), r) {
            proof {
                lemma_position_prefix(texts, r@, i + 1);
            }
            return Some(i);
        }
    }
    assert(texts.take(entries@.len() as int) =~= texts);
    None
}

/// Resolve the program and project root a request names to the positions of
/// their boot-trusted entries, refusing a reference that was not authorized.
pub fn authorize_launch(authority: &LaunchAuthority, program: &str, root: &str) -> (r: Result<
    (usize, usize),
    String,
>)
    ensures
        match (
            position(ref_texts(authority.programs@), program@),
            position(entry_refs(authority.roots@), root@),
        ) {
            (None, _) => r matches Err(m) && m@ == PROGRAM_REFUSAL@,
            (Some(_), None) => r matches Err(m) && m@ == ROOT_REFUSAL@,
            (Some(p), Some(q)) => r matches Ok((i, j)) && i as int == p && j as int == q,
        },
{
    let p = match find(&authority.programs, program) {
        Some(p) => p,
        None => {
            return Err(String::from_str(PROGRAM_REFUSAL));
        },
    };
    let q = match find_entry(&authority.roots, root) {
        Some(q) => q,
        None => {
            return Err(String::from_str(ROOT_REFUSAL));
        },
    };
    Ok((p, q))
}

/// The text a binding renders to: a literal as given, a root or artifact as
/// the host path of its boot-trusted entry; `None` for an unknown reference.
pub open spec fn rendered(authority: LaunchAuthority, value: BindingValue) -> Option<Seq<char>> {
    match value {
        BindingValue::Literal(v) => Some(v@),
        BindingValue::ProjectRoot(r) => match position(entry_refs(authority.roots@), r@) {
            Some(i) => Some(authority.roots@[i].1@),
            None => None,
        },
        BindingValue::PrivateArtifact(r) => match position(entry_refs(authority.artifacts@), r@) {
            Some(i) => Some(authority.artifacts@[i].1@),
            None => None,
        },
    }
}

/// `env` names each binding of `environment` with its rendered text, in order.
pub open spec fn renders(
    authority: LaunchAuthority,
    environment: Seq<(String, BindingValue)>,
    env: Seq<(String, String)>,
) -> bool {
    &&& env.len() == environment.len()
    &&& forall|i: int|
        0 <= i < env.len() ==> #[trigger] env[i].0@ == environment[i].0@ && Some(env[i].1@)
            == rendered(authority, environment[i].1)
}

/// Every binding renders.
pub open spec fn all_render(authority: LaunchAuthority, environment: Seq<(String, BindingValue)>) -> bool {
    forall|i: int| 0 <= i < environment.len() ==> #[trigger] rendered(authority, environment[i].1) is Some
}

/// Every private artifact is authorized.
pub open spec fn all_artifacts_known(authority: LaunchAuthority, artifacts: Seq<String>) -> bool {
    forall|i: int|
        0 <= i < artifacts.len() ==> #[trigger] position(entry_refs(authority.artifacts@), artifacts[i]@) is Some
}

fn render(authority: &LaunchAuthority, value: &BindingValue) -> (r: Option<String>)
    ensures
        match rendered(*authority, *value) {
            Some(t) => r matches Some(s) && s@ == t,
            None => r is None,
        },
{
    match value {
        BindingValue::Literal(v) => {
            let text = v.clone();
            assert(rendered(*authority, *value) == Some(v@));
            Some(text)
        },
        BindingValue::ProjectRoot(reference) => match find_entry(&authority.roots, reference.as_str()) {
            Some(i) => {
                let text = authority.roots[i].1.clone();
                assert(rendered(*authority, *value) == Some(authority.roots@[i as int].1@));
                Some(text)
            },
            None => None,
        },
        BindingValue::PrivateArtifact(reference) => match find_entry(
            &authority.artifacts,
            reference.as_str(),
        ) {
            Some(i) => {
                let text = authority.artifacts[i].1.clone();
                assert(rendered(*authority, *value) == Some(authority.artifacts@[i as int].1@));
                Some(text)
            },
            None => None,
        },
    }
}

/// Render a request's environment and check its private artifacts: a binding
/// to an unknown root or artifact is refused first, then an unauthorized
/// private artifact; otherwise each binding's name with its rendered text.
#[verifier::loop_isolation(false)]
pub fn render_environment(
    authority: &LaunchAuthority,
    environment: &Vec<(String, BindingValue)>,
    private_artifacts: &Vec<String>,
) -> (r: Result<Vec<(String, String)>, String>)
    ensures
        !all_render(*authority, environment@) ==> (r matches Err(m) && m@ == BINDING_REFUSAL@),
        all_render(*authority, environment@) && !all_artifacts_known(*authority, private_artifacts@)
            ==> (r matches Err(m) && m@ == ARTIFACT_REFUSAL@),
        all_render(*authority, environment@) && all_artifacts_known(*authority, private_artifacts@)
            ==> (r matches Ok(env) && renders(*authority, environment@, env@)),
{
    let mut out: Vec<(String, String)> = Vec::new();
    for i in 0..environment.len()
        invariant
            out@.len() == i,
            forall|j: int| 0 <= j < i ==> #[trigger] rendered(*authority, environment@[j].1) is Some,
            forall|j: int|
                0 <= j < i ==> #[trigger] out@[j].0@ == environment@[j].0@ && Some(out@[j].1@)
                    == rendered(*authority, environment@[j].1),
    {
        match render(authority, &environment[i].1) {
            Some(text) => {
                out.push((environment[i].0.clone(), text));
            },
            None => {
                assert(rendered(*authority, environment@[i as int].1) is None);
                return Err(String::from_str(BINDING_REFUSAL));
            },
        }
    }
    for i in 0..private_artifacts.len()
        invariant
            forall|j: int|
                0 <= j < i ==> #[trigger] position(
                    entry_refs(authority.artifacts@),
                    private_artifacts@[j]@,
                ) is Some,
    {
        if find_entry(&authority.artifacts, private_artifacts[i].as_str()).is_none() {
            return Err(String::from_str(ARTIFACT_REFUSAL));
        }
    }
    assert(renders(*authority, environment@, out@));
    Ok(out)
}

} // verus!
