//! Texts shared by the desktop packages: the capsule card that lists the
//! offered services and the bundle descriptor that names the artifact.
use vstd::prelude::*;
use crate::text::{join, join_strs};

verus! {

/// `"platform/<name>"`, quoted.
pub open spec fn quoted_service(name: Seq<char>) -> Seq<char> {
    "\"platform/"@ + name + "\""@
}

/// The quoted service list of a capsule card.
pub open spec fn quoted_services(names: Seq<Seq<char>>) -> Seq<Seq<char>> {
    names.map_values(|n: Seq<char>| quoted_service(n))
}

/// The capsule card of `site`, offering `names` through `shell`.
pub open spec fn capsule_card(site: Seq<char>, shell: Seq<char>, names: Seq<Seq<char>>) -> Seq<char> {
    "schema = \"sim.platform-capsule/v1\"\nprovider = \""@ + site + "\"\nservices = ["@ + join(
        quoted_services(names),
        ", "@,
    ) + "]\nshells = [\""@ + shell + "\"]\nloader_kinds = [\"loader/native-v1\"]\n"@
}

/// The bundle descriptor naming the capsule card, the artifact and its content digest.
pub open spec fn bundle_descriptor(
    capsule_card_name: Seq<char>,
    artifact: Seq<char>,
    content: Seq<char>,
    entry: Seq<char>,
    shell: Seq<char>,
) -> Seq<char> {
    "schema = \"sim.platform-bundle/v1\"\ncapsule = \""@ + capsule_card_name + "\"\nartifact = \""@
        + artifact + "\"\nloader = \"loader/native-v1\"\nartifact_content = \""@ + content
        + "\"\nentry = \""@ + entry + "\"\nshell = \""@ + shell + "\"\n"@
}

/// `a` followed by `b`.
pub fn concat(a: &str, b: &str) -> (r: String)
    ensures
        r@ == a@ + b@,
{
    let mut out = String::from_str(a);
    out.append(b);
    out
}

/// Writes the capsule card of `site`, offering `names` through `shell`.
pub fn capsule_card_text(site: &str, shell: &str, names: &Vec<&str>) -> (r: String)
    ensures
        r@ == capsule_card(site@, shell@, names@.map_values(|s: &str| s@)),
{
    let mut quoted: Vec<String> = Vec::new();
    for i in 0..names.len()
        invariant
            quoted@.len() == i,
            forall|j: int| 0 <= j < i ==> #[trigger] quoted@[j]@ == quoted_service(names@[j]@),
    {
        let q = concat("\"platform/", names[i]);
        let q = concat(q.as_str(), "\"");
        quoted.push(q);
    }
    let mut refs: Vec<&str> = Vec::new();
    for i in 0..quoted.len()
        invariant
            refs@.len() == i,
            forall|j: int| 0 <= j < i ==> #[trigger] refs@[j]@ == quoted@[j]@,
    {
        refs.push(quoted[i].as_str());
    }
    assert(refs@.map_values(|s: &str| s@) =~= quoted_services(names@.map_values(|s: &str| s@)));
    let list = join_strs(&refs, ", ");
    let mut out = String::from_str("schema = \"sim.platform-capsule/v1\"\nprovider = \"");
    out.append(site);
    out.append("\"\nservices = [");
    out.append(list.as_str());
    out.append("]\nshells = [\"");
    out.append(shell);
    out.append("\"]\nloader_kinds = [\"loader/native-v1\"]\n");
    out
}

/// Writes the bundle descriptor naming the capsule card, the artifact and its content digest.
pub fn bundle_descriptor_text(
    capsule_card_name: &str,
    artifact: &str,
    content: &str,
    entry: &str,
    shell: &str,
) -> (r: String)
    ensures
        r@ == bundle_descriptor(capsule_card_name@, artifact@, content@, entry@, shell@),
{
    let mut out = String::from_str("schema = \"sim.platform-bundle/v1\"\ncapsule = \"");
    out.append(capsule_card_name);
    out.append("\"\nartifact = \"");
    out.append(artifact);
    out.append("\"\nloader = \"loader/native-v1\"\nartifact_content = \"");
    out.append(content);
    out.append("\"\nentry = \"");
    out.append(entry);
    out.append("\"\nshell = \"");
    out.append(shell);
    out.append("\"\n");
    out
}

/// Appends `more` to `out`.
pub fn append_bytes(out: &mut Vec<u8>, more: &[u8])
    ensures
        final(out)@ == old(out)@ + more@,
{
    for i in 0..more.len()
        invariant
            out@ == old(out)@ + more@.subrange(0, i as int),
    {
        out.push(more[i]);
        assert(more@.subrange(0, i + 1) =~= more@.subrange(0, i as int).push(more@[i as int]));
    }
    assert(more@.subrange(0, more@.len() as int) =~= more@);
}

} // verus!
