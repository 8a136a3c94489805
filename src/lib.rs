pub mod bogo;
pub mod clock;
pub mod flop;
pub mod helpers;
pub mod models;
pub mod spectre;
pub mod strange;

use vstd::prelude::*;

pub use crate::flop::Flop;
pub use crate::models::{
    Blocks, Board, BenchmarkRequest, Engine, EngineInfo, Move, Request, SearchResult, Square,
    Turn, Worker,
};
use crate::bogo::Bogo;

verus! {

/// The engines on offer, chosen by name.
#[derive(Clone, Copy, Debug, PartialEq, Eq, Structural)]
pub enum EngineKind {
    Bogo,
    Flop,
}

/// The names of the engines on offer.
pub fn get_engine_names() -> (r: Vec<&'static str>)
    ensures
        r@.len() == 2,
        r@[0]@ == "bogo"@,
        r@[1]@ == "flop"@,
{
    vec!["bogo", "flop"]
}

/// The engine called `name`, if there is one.
pub fn get_engine(name: &str) -> (r: Option<EngineKind>)
    ensures
        name@ == "bogo"@ ==> r == Some(EngineKind::Bogo),
        name@ == "flop"@ ==> r == Some(EngineKind::Flop),
        r is None <==> (name@ != "bogo"@ && name@ != "flop"@),
{
    proof {
        reveal_strlit("bogo");
        reveal_strlit("flop");
        assert("bogo"@[0] != "flop"@[0]);
    }
    let wanted = name.to_owned();
    if wanted == "bogo".to_owned() {
        Some(EngineKind::Bogo)
    } else if wanted == "flop".to_owned() {
        Some(EngineKind::Flop)
    } else {
        None
    }
}

impl Engine for EngineKind {
    fn get_info(&self) -> EngineInfo {
        match self {
            EngineKind::Bogo => Bogo.get_info(),
            EngineKind::Flop => Flop.get_info(),
        }
    }

    fn get_search_result(&self, request: Request) -> SearchResult {
        match self {
            EngineKind::Bogo => Bogo.get_search_result(request),
            EngineKind::Flop => Flop.get_search_result(request),
        }
    }
}

} // verus!
