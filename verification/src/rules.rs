//! The inclusion-rule evaluator: a user-supplied boolean expression over the
//! variables `cpu`, `mem`, `pid` and `name` decides, per process record,
//! whether the record stays visible. A blank or unset rule admits every
//! record; any parse, type or evaluation error excludes only the affected
//! record and never aborts the pass.
use vstd::prelude::*;
use vstd::string::StringExecFns;
use crate::ProcError;
use crate::record::ProcessInfo;
use crate::text::{push_char, push_dec_u64, push_dec_centi, spec_dec, spec_dec_centi};

verus! {

/// Whitespace for the purpose of deciding that a rule is blank.
pub open spec fn is_blank_char(c: char) -> bool {
    c == ' ' || c == '\t' || c == '\n' || c == '\r'
}

/// A rule of only whitespace means no rule at all.
pub open spec fn spec_blank(s: Seq<char>) -> bool {
    forall|i: int| 0 <= i < s.len() ==> is_blank_char(#[trigger] s[i])
}

/// Exec counterpart of `spec_blank`.
pub fn is_blank(s: &str) -> (r: bool)
    ensures
        r == spec_blank(s@),
{
    let len = s.unicode_len();
    let mut i: usize = 0;
    while i < len
        invariant
            i <= len,
            len == s@.len(),
            forall|k: int| 0 <= k < i ==> is_blank_char(#[trigger] s@[k]),
        decreases len - i,
    {
        let c = s.get_char(i);
        if !(c == ' ' || c == '\t' || c == '\n' || c == '\r') {
            return false;
        }
        i = i + 1;
    }
    true
}

/// The body of a rhai string literal: quotes and backslashes are escaped,
/// every other character is kept.
pub open spec fn spec_escape(s: Seq<char>) -> Seq<char>
    decreases s.len(),
{
    if s.len() == 0 {
        Seq::<char>::empty()
    } else {
        spec_escape(s.drop_last()) + (if s.last() == '"' || s.last() == '\\' {
            seq!['\\', s.last()]
        } else {
            seq![s.last()]
        })
    }
}

/// Appends the escaped form of a string.
fn push_escaped(out: &mut String, s: &str)
    ensures
        final(out)@ == old(out)@ + spec_escape(s@),
{
    let len = s.unicode_len();
    let mut i: usize = 0;
    proof {
        assert(s@.subrange(0, 0) =~= Seq::<char>::empty());
        assert(out@ =~= old(out)@ + spec_escape(s@.subrange(0, 0)));
    }
    while i < len
        invariant
            i <= len,
            len == s@.len(),
            out@ == old(out)@ + spec_escape(s@.subrange(0, i as int)),
        decreases len - i,
    {
        let c = s.get_char(i);
        if c == '"' || c == '\\' {
            push_char(out, '\\');
        }
        push_char(out, c);
        proof {
            assert(s@.subrange(0, i as int + 1).drop_last() =~= s@.subrange(0, i as int));
            assert(s@.subrange(0, i as int + 1).last() == s@[i as int]);
            assert(out@ =~= old(out)@ + spec_escape(s@.subrange(0, i as int + 1)));
        }
        i = i + 1;
    }
    proof {
        assert(s@.subrange(0, len as int) =~= s@);
    }
}

/// Resident bytes rendered as hundredths of a megabyte, the unit the rule
/// variable `mem` is bound in.
pub open spec fn spec_mem_centi_mb(m: u64) -> int {
    (m as int / 0x100000) * 100 + ((m as int % 0x100000) * 100) / 0x100000
}

/// Exec counterpart of `spec_mem_centi_mb`.
pub fn mem_centi_mb(m: u64) -> (r: u64)
    ensures
        r == spec_mem_centi_mb(m),
{
    let mb = m / 0x100000;
    let rem = m % 0x100000;
    let frac = rem * 100 / 0x100000;
    mb * 100 + frac
}

/// The script handed to the expression engine for one record: bindings for
/// `cpu` (percent), `mem` (megabytes), `pid` and `name`, then the rule.
pub open spec fn spec_script(rule: Seq<char>, p: ProcessInfo) -> Seq<char> {
    "let cpu = "@ + spec_dec_centi(p.cpu_usage as nat) + "; let mem = "@ + spec_dec_centi(
        spec_mem_centi_mb(p.memory_usage) as nat,
    ) + "; let pid = "@ + spec_dec(p.pid as nat) + "; let name = \""@ + spec_escape(p.name@)
        + "\";\n"@ + rule
}

/// Builds the per-record script.
fn build_script(rule: &str, p: &ProcessInfo) -> (s: String)
    ensures
        s@ == spec_script(rule@, *p),
{
    let mut s = String::new();
    s.append("let cpu = ");
    push_dec_centi(&mut s, p.cpu_usage);
    s.append("; let mem = ");
    let mc = mem_centi_mb(p.memory_usage);
    push_dec_centi(&mut s, mc);
    s.append("; let pid = ");
    push_dec_u64(&mut s, p.pid as u64);
    s.append("; let name = \"");
    push_escaped(&mut s, p.name.as_str());
    s.append("\";\n");
    s.append(rule);
    proof {
        assert(s@ =~= spec_script(rule@, *p));
    }
    s
}

/// Evaluates a script to a boolean.
///
/// Relies on rhai's `Engine::eval`: it compiles and runs the script and
/// yields its boolean result; any parse, type or evaluation failure is
/// collapsed into no result. Nothing is promised of the value: the rule text
/// is untrusted input and the engine decides.
#[verifier::external_body]
fn eval_bool_script(script: &String) -> (r: Option<bool>) {
    rhai::Engine::new().eval::<bool>(script.as_str()).ok()
}

/// What an evaluation outcome means for visibility: a record is included
/// exactly when the engine returned `true`; an error excludes the record.
pub fn include_from_eval(r: Option<bool>) -> (inc: bool)
    ensures
        inc == (r == Some(true)),
{
    match r {
        Some(v) => v,
        None => false,
    }
}

/// The rule evaluator: holds the active rule and tests records against it.
pub struct RuleEngine {
    active_rule: Option<String>,
}

impl RuleEngine {
    /// The active rule's text.
    pub closed spec fn spec_rule(self) -> Option<Seq<char>> {
        match self.active_rule {
            Some(r) => Some(r@),
            None => None,
        }
    }

    /// A rule is active when it is set and not blank.
    pub open spec fn spec_active(self) -> bool {
        match self.spec_rule() {
            Some(r) => !spec_blank(r),
            None => false,
        }
    }

    pub fn new() -> (r: Self)
        ensures
            r.spec_rule() is None,
            !r.spec_active(),
    {
        RuleEngine { active_rule: None }
    }

    /// Replaces the active rule.
    pub fn set_rule(&mut self, rule: String)
        ensures
            final(self).spec_rule() == Some(rule@),
    {
        self.active_rule = Some(rule);
    }

    /// Removes the active rule.
    pub fn clear_rule(&mut self)
        ensures
            final(self).spec_rule() is None,
            !final(self).spec_active(),
    {
        self.active_rule = None;
    }

    /// Whether a non-blank rule is set.
    pub fn active(&self) -> (r: bool)
        ensures
            r == self.spec_active(),
    {
        match &self.active_rule {
            Some(rule) => !is_blank(rule.as_str()),
            None => false,
        }
    }

    /// Tests one record against the active rule, reporting an evaluation
    /// failure as an error. With no active rule every record passes.
    pub fn evaluate_checked(&self, p: &ProcessInfo) -> (r: Result<bool, ProcError>)
        ensures
            !self.spec_active() ==> r == Ok::<bool, ProcError>(true),
            r is Err ==> r == Err::<bool, ProcError>(ProcError::ExpressionError),
    {
        match &self.active_rule {
            Some(rule) => {
                if is_blank(rule.as_str()) {
                    Ok(true)
                } else {
                    let script = build_script(rule.as_str(), p);
                    match eval_bool_script(&script) {
                        Some(v) => Ok(v),
                        None => Err(ProcError::ExpressionError),
                    }
                }
            },
            None => Ok(true),
        }
    }

    /// Tests one record against the active rule. With no active rule, or a
    /// blank one, every record is included; a record whose evaluation fails
    /// is excluded, and the failure never aborts the pass.
    pub fn evaluate_for(&self, p: &ProcessInfo) -> (r: bool)
        ensures
            !self.spec_active() ==> r == true,
    {
        match self.evaluate_checked(p) {
            Ok(v) => v,
            Err(_) => false,
        }
    }
}

} // verus!
