use vstd::prelude::*;

verus! {

use crate::arith::min_i64;
use crate::arith::MAX_VAL;
use crate::errors::FuzzyError;
use crate::set::clip_seq;
use crate::set::has_term;
use crate::set::spec_degree_of;
use crate::set::term_index;
use crate::set::term_ref;
use crate::set::union_seq;
use crate::set::FuzzySet;
use crate::set::LinguisticVar;

/// One inference rule: term names for every input variable on the left,
/// term names for every output variable on the right.
#[derive(Clone, Debug)]
pub struct Rule {
    pub antecedents: Vec<String>,
    pub consequents: Vec<String>,
}

/// The first set named `name` inside a linguistic variable.
pub open spec fn term_set(v: LinguisticVar, name: Seq<char>) -> FuzzySet {
    v.sets@[term_index(v.sets@, name)]
}

/// A Mamdani inference engine: input and output linguistic variables
/// plus a rule base. Rules are validated as they are added, so that a
/// mistyped term name fails immediately rather than at evaluation time.
#[derive(Clone, Debug)]
pub struct FuzzyEngine {
    pub inputs_var: Vec<LinguisticVar>,
    pub outputs_var: Vec<LinguisticVar>,
    pub rules: Vec<Rule>,
}

impl FuzzyEngine {
    /// A rule fits this engine: one antecedent term per input variable,
    /// one consequent term per output variable, every name present in
    /// its variable.
    pub open spec fn rule_wf(self, r: Rule) -> bool {
        &&& r.antecedents@.len() == self.inputs_var@.len()
        &&& r.consequents@.len() == self.outputs_var@.len()
        &&& forall|i: int|
            0 <= i < r.antecedents@.len() ==> has_term(
                self.inputs_var@[i].sets@,
                (#[trigger] r.antecedents@[i])@,
            )
        &&& forall|i: int|
            0 <= i < r.consequents@.len() ==> has_term(
                self.outputs_var@[i].sets@,
                (#[trigger] r.consequents@[i])@,
            )
    }

    /// Well-formedness: every variable is well formed and every stored
    /// rule fits the engine.
    pub open spec fn wf(self) -> bool {
        &&& forall|i: int| 0 <= i < self.inputs_var@.len() ==> (#[trigger] self.inputs_var@[i]).wf()
        &&& forall|i: int|
            0 <= i < self.outputs_var@.len() ==> (#[trigger] self.outputs_var@[i]).wf()
        &&& forall|j: int| 0 <= j < self.rules@.len() ==> self.rule_wf(#[trigger] self.rules@[j])
    }

    /// An engine over the given variables, with an empty rule base.
    pub fn new(inputs_var: Vec<LinguisticVar>, outputs_var: Vec<LinguisticVar>) -> (r: FuzzyEngine)
        requires
            forall|i: int| 0 <= i < inputs_var@.len() ==> (#[trigger] inputs_var@[i]).wf(),
            forall|i: int| 0 <= i < outputs_var@.len() ==> (#[trigger] outputs_var@[i]).wf(),
        ensures
            r.wf(),
            r.inputs_var@ == inputs_var@,
            r.outputs_var@ == outputs_var@,
            r.rules@.len() == 0,
    {
        FuzzyEngine { inputs_var, outputs_var, rules: Vec::new() }
    }

    /// Whether a candidate rule has the right arity for this engine.
    pub open spec fn rule_arity_ok(self, cond: Seq<String>, res: Seq<String>) -> bool {
        cond.len() == self.inputs_var@.len() && res.len() == self.outputs_var@.len()
    }

    /// Whether every term name of a candidate rule exists in its
    /// variable.
    pub open spec fn rule_terms_ok(self, cond: Seq<String>, res: Seq<String>) -> bool {
        &&& forall|i: int|
            0 <= i < cond.len() ==> has_term(self.inputs_var@[i].sets@, (#[trigger] cond[i])@)
        &&& forall|i: int|
            0 <= i < res.len() ==> has_term(self.outputs_var@[i].sets@, (#[trigger] res[i])@)
    }

    /// Validates and stores a rule. Fails with `Configuration` exactly
    /// when the arity does not match the engine's variables, and
    /// otherwise with `UnknownTerm` exactly when some named term does
    /// not exist; a failed call leaves the engine unchanged.
    pub fn add_rule(&mut self, cond: Vec<String>, res: Vec<String>) -> (r: Result<(), FuzzyError>)
        requires
            old(self).wf(),
        ensures
            final(self).wf(),
            r is Err <==> !(old(self).rule_arity_ok(cond@, res@) && old(self).rule_terms_ok(
                cond@,
                res@,
            )),
            r matches Err(e) ==> *final(self) == *old(self),
            r matches Err(e) ==> (e == FuzzyError::Configuration <==> !old(self).rule_arity_ok(
                cond@,
                res@,
            )),
            r matches Err(e) ==> (e == FuzzyError::UnknownTerm <==> old(self).rule_arity_ok(
                cond@,
                res@,
            ) && !old(self).rule_terms_ok(cond@, res@)),
            r is Ok ==> {
                &&& final(self).inputs_var@ == old(self).inputs_var@
                &&& final(self).outputs_var@ == old(self).outputs_var@
                &&& final(self).rules@ == old(self).rules@.push(
                    Rule { antecedents: cond, consequents: res },
                )
            },
    {
        if cond.len() != self.inputs_var.len() || res.len() != self.outputs_var.len() {
            return Err(FuzzyError::Configuration);
        }
        let n: usize = cond.len();
        let mut i: usize = 0;
        while i < n
            invariant
                i <= n,
                n == cond@.len(),
                self == old(self),
                old(self).wf(),
                old(self).rule_arity_ok(cond@, res@),
                n == self.inputs_var@.len(),
                forall|k: int|
                    0 <= k < i ==> has_term(self.inputs_var@[k].sets@, (#[trigger] cond@[k])@),
            decreases n - i,
        {
            match self.inputs_var[i].term(&cond[i]) {
                Ok(_) => {},
                Err(_) => {
                    proof {
                        assert(!has_term(self.inputs_var@[i as int].sets@, cond@[i as int]@));
                    }
                    return Err(FuzzyError::UnknownTerm);
                },
            }
            i += 1;
        }
        let m: usize = res.len();
        let mut i: usize = 0;
        while i < m
            invariant
                i <= m,
                m == res@.len(),
                self == old(self),
                old(self).wf(),
                old(self).rule_arity_ok(cond@, res@),
                forall|k: int|
                    0 <= k < cond@.len() ==> has_term(
                        self.inputs_var@[k].sets@,
                        (#[trigger] cond@[k])@,
                    ),
                m == self.outputs_var@.len(),
                forall|k: int|
                    0 <= k < i ==> has_term(self.outputs_var@[k].sets@, (#[trigger] res@[k])@),
            decreases m - i,
        {
            match self.outputs_var[i].term(&res[i]) {
                Ok(_) => {},
                Err(_) => {
                    proof {
                        assert(!has_term(self.outputs_var@[i as int].sets@, res@[i as int]@));
                    }
                    return Err(FuzzyError::UnknownTerm);
                },
            }
            i += 1;
        }
        let rule = Rule { antecedents: cond, consequents: res };
        self.rules.push(rule);
        Ok(())
    }

    /// The degree to which input `i` matches rule `j`'s antecedent term.
    pub open spec fn antecedent_degree(self, inputs: Seq<i64>, j: int, i: int) -> i64 {
        let s = term_set(self.inputs_var@[i], self.rules@[j].antecedents@[i]@);
        spec_degree_of(s.universe@, s.membership@, inputs[i] as int)
    }

    /// The minimum of rule `j`'s first `i` antecedent degrees, starting
    /// from no constraint at all.
    pub open spec fn strength_prefix(self, inputs: Seq<i64>, j: int, i: int) -> i64
        decreases i,
    {
        if i <= 0 {
            i64::MAX
        } else {
            min_i64(
                self.strength_prefix(inputs, j, i - 1),
                self.antecedent_degree(inputs, j, i - 1),
            )
        }
    }

    /// Rule `j`'s firing strength: the minimum of its antecedent
    /// degrees over all input variables.
    pub open spec fn rule_strength(self, inputs: Seq<i64>, j: int) -> i64 {
        self.strength_prefix(inputs, j, self.rules@[j].antecedents@.len() as int)
    }

    /// Rule `j`'s consequent set for output `m`, clipped down to the
    /// rule's firing strength.
    pub open spec fn clipped(self, inputs: Seq<i64>, j: int, m: int) -> Seq<i64> {
        clip_seq(
            term_set(self.outputs_var@[m], self.rules@[j].consequents@[m]@).membership@,
            self.rule_strength(inputs, j),
        )
    }

    /// The aggregate for output `m` over rules `0..=j`: the pointwise
    /// maximum of the clipped consequents.
    pub open spec fn aggregated(self, inputs: Seq<i64>, m: int, j: int) -> Seq<i64>
        decreases j,
    {
        if j <= 0 {
            self.clipped(inputs, 0, m)
        } else {
            union_seq(self.aggregated(inputs, m, j - 1), self.clipped(inputs, j, m))
        }
    }

    /// Rule `j`'s firing strength, computed.
    fn strength_of(&self, inputs: &Vec<i64>, j: usize) -> (r: i64)
        requires
            self.wf(),
            j < self.rules@.len(),
            inputs@.len() == self.inputs_var@.len(),
            forall|i: int| 0 <= i < inputs@.len() ==> -MAX_VAL <= #[trigger] inputs@[i] <= MAX_VAL,
        ensures
            r == self.rule_strength(inputs@, j as int),
            0 <= r,
    {
        let n: usize = self.rules[j].antecedents.len();
        let mut aj: i64 = i64::MAX;
        let mut i: usize = 0;
        while i < n
            invariant
                i <= n,
                self.wf(),
                j < self.rules@.len(),
                inputs@.len() == self.inputs_var@.len(),
                forall|k: int| 0 <= k < inputs@.len() ==> -MAX_VAL <= #[trigger] inputs@[k] <= MAX_VAL,
                n == self.rules@[j as int].antecedents@.len(),
                aj == self.strength_prefix(inputs@, j as int, i as int),
                0 <= aj,
            decreases n - i,
        {
            let var = &self.inputs_var[i];
            let fs = term_ref(&var.sets, &self.rules[j].antecedents[i]);
            proof {
                crate::set::lemma_first_match(
                    var.sets@,
                    self.rules@[j as int].antecedents@[i as int]@,
                    0,
                );
            }
            let v: i64 = fs.degree_of(inputs[i]);
            if v < aj {
                aj = v;
            }
            i += 1;
        }
        aj
    }

    /// Evaluates the rule base on one input tuple: for each rule, the
    /// firing strength clips every consequent set, and per output the
    /// clipped sets are joined by the standard union. Fails with
    /// `EmptyRuleBase` exactly when no rule was added.
    pub fn calculate(&self, inputs: &Vec<i64>) -> (r: Result<Vec<FuzzySet>, FuzzyError>)
        requires
            self.wf(),
            inputs@.len() == self.inputs_var@.len(),
            forall|i: int| 0 <= i < inputs@.len() ==> -MAX_VAL <= #[trigger] inputs@[i] <= MAX_VAL,
        ensures
            r is Err <==> self.rules@.len() == 0,
            r matches Err(e) ==> e == FuzzyError::EmptyRuleBase,
            r matches Ok(out) ==> {
                &&& out@.len() == self.outputs_var@.len()
                &&& forall|m: int| 0 <= m < out@.len() ==> (#[trigger] out@[m]).wf()
                &&& forall|m: int|
                    0 <= m < out@.len() ==> (#[trigger] out@[m]).universe@
                        == self.outputs_var@[m].universe@
                &&& forall|m: int|
                    0 <= m < out@.len() ==> (#[trigger] out@[m]).membership@ == self.aggregated(
                        inputs@,
                        m,
                        self.rules@.len() - 1,
                    )
            },
    {
        let rule_count: usize = self.rules.len();
        if rule_count == 0 {
            return Err(FuzzyError::EmptyRuleBase);
        }
        let out_count: usize = self.outputs_var.len();
        let mut out: Vec<FuzzySet> = Vec::new();
        let mut m: usize = 0;
        while m < out_count
            invariant
                m <= out_count,
                self.wf(),
                inputs@.len() == self.inputs_var@.len(),
                forall|k: int| 0 <= k < inputs@.len() ==> -MAX_VAL <= #[trigger] inputs@[k] <= MAX_VAL,
                out_count == self.outputs_var@.len(),
                rule_count == self.rules@.len(),
                1 <= rule_count,
                out@.len() == m,
                forall|k: int| 0 <= k < m ==> (#[trigger] out@[k]).wf(),
                forall|k: int|
                    0 <= k < m ==> (#[trigger] out@[k]).universe@ == self.outputs_var@[k].universe@,
                forall|k: int|
                    0 <= k < m ==> (#[trigger] out@[k]).membership@ == self.aggregated(
                        inputs@,
                        k,
                        rule_count - 1,
                    ),
            decreases out_count - m,
        {
            let mut acc: FuzzySet = self.clipped_set(inputs, 0, m);
            let mut j: usize = 1;
            while j < rule_count
                invariant
                    1 <= j <= rule_count,
                    self.wf(),
                    inputs@.len() == self.inputs_var@.len(),
                    forall|k: int|
                        0 <= k < inputs@.len() ==> -MAX_VAL <= #[trigger] inputs@[k] <= MAX_VAL,
                    out_count == self.outputs_var@.len(),
                    rule_count == self.rules@.len(),
                    m < out_count,
                    acc.wf(),
                    acc.universe@ == self.outputs_var@[m as int].universe@,
                    acc.membership@ == self.aggregated(inputs@, m as int, j - 1),
                decreases rule_count - j,
            {
                let clip = self.clipped_set(inputs, j, m);
                acc = acc.union_on_shared_universe(&clip, String::new());
                j += 1;
            }
            out.push(acc);
            m += 1;
        }
        Ok(out)
    }

    /// Builds the clipped consequent set of rule `j` for output `m`.
    fn clipped_set(&self, inputs: &Vec<i64>, j: usize, m: usize) -> (r: FuzzySet)
        requires
            self.wf(),
            j < self.rules@.len(),
            m < self.outputs_var@.len(),
            inputs@.len() == self.inputs_var@.len(),
            forall|i: int| 0 <= i < inputs@.len() ==> -MAX_VAL <= #[trigger] inputs@[i] <= MAX_VAL,
        ensures
            r.wf(),
            r.universe@ == self.outputs_var@[m as int].universe@,
            r.membership@ == self.clipped(inputs@, j as int, m as int),
    {
        let alpha: i64 = self.strength_of(inputs, j);
        let var = &self.outputs_var[m];
        let fs = term_ref(&var.sets, &self.rules[j].consequents[m]);
        proof {
            crate::set::lemma_first_match(var.sets@, self.rules@[j as int].consequents@[m as int]@, 0);
        }
        fs.min(alpha, String::new())
    }
}

} // verus!
