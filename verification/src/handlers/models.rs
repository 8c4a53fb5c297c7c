//! `GET /v1/models`: the configured aliases, as an OpenAI list.
//!
//! ```json
//! {
//!   "object": "list",
//!   "data": [
//!     { "id": "qwen3.5-122b", "object": "model", "created": 0, "owned_by": "llmcore" }
//!   ]
//! }
//! ```
use crate::config::{sorted_names, Config};
use crate::table::{holds_at, lemma_item_in_map};
use crate::text::text_precedes;
use vstd::prelude::*;

verus! {

/// A model of the list.
#[derive(Debug)]
pub struct ModelInfo {
    /// The alias.
    pub id: String,
    /// Always "model".
    pub object: &'static str,
    /// Always 0: the configuration knows no date.
    pub created: u64,
    /// The provider behind the alias.
    pub owned_by: String,
}

/// The list of the models.
#[derive(Debug)]
pub struct ModelsResponse {
    pub object: &'static str,
    pub data: Vec<ModelInfo>,
}

/// The aliases of a list of models.
pub open spec fn model_ids(data: Seq<ModelInfo>) -> Seq<Seq<char>> {
    Seq::new(data.len(), |i: int| data[i].id@)
}

/// `info` tells of the alias `id` of a configuration.
pub open spec fn tells_of(info: ModelInfo, id: Seq<char>, provider: Seq<char>) -> bool {
    &&& info.id@ == id
    &&& info.object@ == "model"@
    &&& info.created == 0
    &&& info.owned_by@ == provider
}

/// Answers `GET /v1/models`: every alias once, in alphabetical order.
pub fn handler(config: &Config) -> (r: ModelsResponse)
    ensures
        r.object@ == "list"@,
        sorted_names(model_ids(r.data@)),
        forall|id: Seq<char>|
            model_ids(r.data@).contains(id) <==> config.aliases@.contains_key(id),
        forall|i: int|
            0 <= i < r.data@.len() ==> tells_of(
                #[trigger] r.data@[i],
                r.data@[i].id@,
                config.aliases@[r.data@[i].id@].provider@,
            ),
{
    let aliases = &config.aliases;
    let n: usize = aliases.len();
    let ghost items = config.aliases.items();
    let mut data: Vec<ModelInfo> = Vec::new();
    let mut i: usize = 0;
    while i < n
        invariant
            i <= n == items.len(),
            items == config.aliases.items(),
            *aliases == config.aliases,
            data@.len() == i,
            forall|j: int|
                0 <= j < i ==> tells_of(
                    #[trigger] data@[j],
                    items[j].0@,
                    items[j].1.provider@,
                ),
        decreases n - i,
    {
        data.push(
            ModelInfo {
                id: aliases.key_at(i).clone(),
                object: "model",
                created: 0,
                owned_by: aliases.value_at(i).provider.clone(),
            },
        );
        i = i + 1;
    }
    proof {
        let ids = model_ids(data@);
        assert forall|i: int| 0 <= i < data@.len() implies tells_of(
            #[trigger] data@[i],
            data@[i].id@,
            config.aliases@[data@[i].id@].provider@,
        ) by {
            lemma_item_in_map(items, i);
        }
        assert forall|i: int, j: int| 0 <= i < j < ids.len() implies text_precedes(
            #[trigger] ids[i],
            #[trigger] ids[j],
        ) by {
            assert(ids[i] == data@[i].id@ && ids[j] == data@[j].id@);
            assert(items[i].0@ == ids[i] && items[j].0@ == ids[j]);
        }
        assert forall|id: Seq<char>| ids.contains(id) <==> config.aliases@.contains_key(id) by {
            if ids.contains(id) {
                let k = ids.index_of(id);
                assert(ids[k] == data@[k].id@);
                lemma_item_in_map(items, k);
            }
            if config.aliases@.contains_key(id) {
                let k = choose|k: int| #[trigger] holds_at(items, id, k);
                assert(tells_of(data@[k], items[k].0@, items[k].1.provider@));
                assert(ids[k] == id);
            }
        }
    }
    ModelsResponse { object: "list", data }
}

/// A model of the list is an alias, has no date and belongs to its provider.
pub proof fn models_tell_of_their_alias(
    data: Seq<ModelInfo>,
    i: int,
    id: Seq<char>,
    provider: Seq<char>,
)
    requires
        0 <= i < data.len(),
        tells_of(data[i], id, provider),
    ensures
        data[i].id@ == id,
        data[i].object@ == "model"@,
        data[i].created == 0,
        data[i].owned_by@ == provider,
        model_ids(data).len() == data.len(),
        model_ids(data)[i] == id,
{
}

} // verus!
