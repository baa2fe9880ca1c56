//! A step that the matcher has already matched.
use vstd::prelude::*;
use crate::clase::step_regex::StepRegex;
use crate::paso_evaluado::EvaluadoV;

verus! {

/// A matched step: the step, how many bytes it matched, and whether the matcher
/// may give those bytes back when it backtracks.
#[derive(Debug)]
pub struct StepEvaluado {
    pub paso: StepRegex,
    pub match_size: usize,
    pub backtrackable: bool,
}

impl View for StepEvaluado {
    type V = EvaluadoV;

    open spec fn view(&self) -> EvaluadoV {
        EvaluadoV { paso: self.paso@, tam: self.match_size as nat, back: self.backtrackable }
    }
}

/// The matched steps of a vector, each by what it stands for.
pub open spec fn vista_step_evaluados(v: Seq<StepEvaluado>) -> Seq<EvaluadoV> {
    v.map_values(|p: StepEvaluado| p@)
}

} // verus!
