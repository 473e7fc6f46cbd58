//! The providers that are known by name.

use crate::text::str_eq;
use vstd::prelude::*;

verus! {

/// How a provider is authenticated.
#[derive(Debug, Clone, Copy, PartialEq, Eq, Structural)]
pub enum AuthKind {
    ApiKey,
    Oauth,
    /// A local endpoint that asks for no credential.
    LocalFree,
}

/// The wire format of a provider.
#[derive(Debug, Clone, Copy, PartialEq, Eq, Structural)]
pub enum WireProtocol {
    OpenAi,
    Anthropic,
}

/// A model that is listed without asking the provider.
#[derive(Debug)]
pub struct StaticModel {
    pub id: String,
    pub name: String,
    pub reasoning: bool,
    pub attachment: bool,
    pub context: u64,
}

#[derive(Debug)]
pub struct ProviderSpec {
    pub key: String,
    pub display: String,
    pub auth: AuthKind,
    pub protocol: WireProtocol,
    /// The name of the provider at models.dev.
    pub models_dev: Option<String>,
    pub default_model: String,
    pub static_models: Vec<StaticModel>,
}

/// The position of the first provider of this name.
pub open spec fn index_of(registry: Seq<ProviderSpec>, key: Seq<char>) -> Option<int>
    decreases registry.len(),
{
    if registry.len() == 0 {
        None
    } else {
        match index_of(registry.drop_last(), key) {
            Some(i) => Some(i),
            None => if registry.last().key@ == key {
                Some(registry.len() - 1)
            } else {
                None
            },
        }
    }
}

/// The provider of this name.
pub open spec fn spec_of(registry: Seq<ProviderSpec>, key: Seq<char>) -> Option<ProviderSpec> {
    match index_of(registry, key) {
        Some(i) => Some(registry[i]),
        None => None,
    }
}

proof fn lemma_index_stays(registry: Seq<ProviderSpec>, key: Seq<char>, n: int)
    requires
        0 <= n <= registry.len(),
        index_of(registry.take(n), key) is Some,
    ensures
        index_of(registry, key) == index_of(registry.take(n), key),
    decreases registry.len() - n,
{
    if n < registry.len() {
        assert(registry.take(n + 1).drop_last() =~= registry.take(n));
        lemma_index_stays(registry, key, n + 1);
    } else {
        assert(registry.take(n) =~= registry);
    }
}

pub fn find<'a>(registry: &'a Vec<ProviderSpec>, key: &str) -> (r: Option<&'a ProviderSpec>)
    ensures
        match r {
            Some(spec) => spec_of(registry@, key@) == Some(*spec),
            None => spec_of(registry@, key@) is None,
        },
{
    let mut i: usize = 0;
    while i < registry.len()
        invariant
            i <= registry@.len(),
            index_of(registry@.take(i as int), key@) is None,
        decreases registry@.len() - i,
    {
        assert(registry@.take(i + 1).drop_last() =~= registry@.take(i as int));
        if str_eq(registry[i].key.as_str(), key) {
            proof {
                lemma_index_stays(registry@, key@, i + 1);
            }
            return Some(&registry[i]);
        }
        i = i + 1;
    }
    assert(registry@.take(i as int) =~= registry@);
    None
}

/// A name finds the first provider that has it, and none where none has it.
pub proof fn law_first_of_the_name_is_found(registry: Seq<ProviderSpec>, key: Seq<char>)
    ensures
        match spec_of(registry, key) {
            Some(spec) => spec.key@ == key && exists|i: int|
                0 <= i < registry.len() && #[trigger] registry[i] == spec && forall|j: int|
                    0 <= j < i ==> (#[trigger] registry[j]).key@ != key,
            None => forall|j: int| 0 <= j < registry.len() ==> (#[trigger] registry[j]).key@ != key,
        },
{
    lemma_first_index(registry, key);
    if let Some(i) = index_of(registry, key) {
        assert(registry[i] == spec_of(registry, key)->0);
    }
}

proof fn lemma_first_index(registry: Seq<ProviderSpec>, key: Seq<char>)
    ensures
        match index_of(registry, key) {
            Some(i) => 0 <= i < registry.len() && registry[i].key@ == key && forall|j: int|
                0 <= j < i ==> (#[trigger] registry[j]).key@ != key,
            None => forall|j: int| 0 <= j < registry.len() ==> (#[trigger] registry[j]).key@ != key,
        },
    decreases registry.len(),
{
    if registry.len() > 0 {
        let init = registry.drop_last();
        lemma_first_index(init, key);
        assert forall|j: int| 0 <= j < init.len() implies #[trigger] registry[j] == init[j] by {}
    }
}

} // verus!
