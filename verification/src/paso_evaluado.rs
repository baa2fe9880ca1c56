//! A step that the matcher has already matched.
use vstd::prelude::*;
use crate::paso_regex::{PasoRegex, PasoV};

verus! {

/// A matched step: the step, how many bytes it matched, and whether the matcher
/// may give those bytes back when it backtracks.
#[derive(Debug)]
pub struct PasoEvaluado {
    pub paso: PasoRegex,
    pub tam_matcheo: usize,
    pub backtrackeable: bool,
}

/// What a matched step stands for.
pub struct EvaluadoV {
    pub paso: PasoV,
    pub tam: nat,
    pub back: bool,
}

impl View for PasoEvaluado {
    type V = EvaluadoV;

    open spec fn view(&self) -> EvaluadoV {
        EvaluadoV { paso: self.paso@, tam: self.tam_matcheo as nat, back: self.backtrackeable }
    }
}

/// The matched steps of a vector, each by what it stands for.
pub open spec fn vista_evaluados(v: Seq<PasoEvaluado>) -> Seq<EvaluadoV> {
    v.map_values(|p: PasoEvaluado| p@)
}

} // verus!
