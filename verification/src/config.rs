//! The settings of the engine that its decisions read.
use vstd::prelude::*;

verus! {

/// Where the engine keeps its data and which models it asks.
#[derive(Debug, Clone, PartialEq, Eq)]
pub struct Config {
    pub database_url: String,
    pub database_marker: String,
    pub ollama_base_url: String,
    pub ollama_embed_model: String,
    pub ollama_llm_model: String,
    pub fast_embed_model: String,
    pub validate_model: String,
    pub fast_code_model: String,
    pub deep_code_model: String,
    pub agent_code_model: String,
    pub experiment_model: String,
}

impl Config {
    /// The model that embeds memories.
    pub fn memory_embed_model(&self) -> (r: &str)
        ensures
            r@ == self.ollama_embed_model@,
    {
        self.ollama_embed_model.as_str()
    }

    /// The model that embeds code.
    pub fn code_embed_model(&self) -> (r: &str)
        ensures
            r@ == self.fast_embed_model@,
    {
        self.fast_embed_model.as_str()
    }

    /// The model that extracts memories.
    pub fn extract_model(&self) -> (r: &str)
        ensures
            r@ == self.ollama_llm_model@,
    {
        self.ollama_llm_model.as_str()
    }
}

} // verus!
