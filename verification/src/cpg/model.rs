//! Framework taint models: the sources, sinks and sanitizers that a model
//! file declares, and merging several models into one.
use vstd::prelude::*;

verus! {

/// A complete taint model, possibly merged from several framework files.
#[derive(Debug, Clone)]
pub struct TaintModel {
    pub metadata: ModelMetadata,
    pub sources: Vec<TaintSource>,
    pub sinks: Vec<TaintSink>,
    pub sanitizers: Vec<TaintSanitizer>,
}

/// The framework a model file covers.
#[derive(Debug, Clone)]
pub struct ModelMetadata {
    pub framework: String,
    pub version: Option<String>,
}

/// A function or attribute that introduces tainted data.
#[derive(Debug, Clone)]
pub struct TaintSource {
    pub function: String,
    pub kind: String,
    pub returns: bool,
    pub attribute: bool,
}

/// A function where tainted data reaching it is a vulnerability.
#[derive(Debug, Clone)]
pub struct TaintSink {
    pub function: String,
    pub kind: String,
    pub parameters: Vec<usize>,
    pub cwe: Option<u32>,
}

/// A function that neutralises taint of one kind.
#[derive(Debug, Clone)]
pub struct TaintSanitizer {
    pub function: String,
    pub kind: String,
    pub returns: bool,
}

/// The sources of the models, one model after the other.
pub open spec fn all_sources(ms: Seq<TaintModel>) -> Seq<TaintSource>
    decreases ms.len(),
{
    if ms.len() == 0 {
        Seq::empty()
    } else {
        all_sources(ms.drop_last()) + ms.last().sources@
    }
}

/// The sinks of the models, one model after the other.
pub open spec fn all_sinks(ms: Seq<TaintModel>) -> Seq<TaintSink>
    decreases ms.len(),
{
    if ms.len() == 0 {
        Seq::empty()
    } else {
        all_sinks(ms.drop_last()) + ms.last().sinks@
    }
}

/// The sanitizers of the models, one model after the other.
pub open spec fn all_sanitizers(ms: Seq<TaintModel>) -> Seq<TaintSanitizer>
    decreases ms.len(),
{
    if ms.len() == 0 {
        Seq::empty()
    } else {
        all_sanitizers(ms.drop_last()) + ms.last().sanitizers@
    }
}

/// Merges models (in the order given) into one named `merged`, without a
/// version: their sources, sinks and sanitizers, one model after the other.
pub fn merge_models(models: Vec<TaintModel>) -> (m: TaintModel)
    ensures
        m.metadata.framework@ == "merged"@,
        m.metadata.version is None,
        m.sources@ == all_sources(models@),
        m.sinks@ == all_sinks(models@),
        m.sanitizers@ == all_sanitizers(models@),
{
    let ghost ms = models@;
    let mut merged = TaintModel {
        metadata: ModelMetadata { framework: String::from_str("merged"), version: None },
        sources: Vec::new(),
        sinks: Vec::new(),
        sanitizers: Vec::new(),
    };
    let mut rest = models;
    let ghost mut done: Seq<TaintModel> = Seq::empty();
    assert(ms =~= done + rest@);
    while rest.len() > 0
        invariant
            ms == done + rest@,
            merged.metadata.framework@ == "merged"@,
            merged.metadata.version is None,
            merged.sources@ == all_sources(done),
            merged.sinks@ == all_sinks(done),
            merged.sanitizers@ == all_sanitizers(done),
        decreases rest@.len(),
    {
        let mut model = rest.remove(0);
        let ghost m0 = model;
        merged.sources.append(&mut model.sources);
        merged.sinks.append(&mut model.sinks);
        merged.sanitizers.append(&mut model.sanitizers);
        let ghost before = done;
        proof {
            done = done.push(m0);
        }
        assert(done.drop_last() =~= before);
        assert(ms =~= done + rest@);
    }
    assert(done =~= ms);
    merged
}

} // verus!
