//! Token rules that are given as data: a list of entries, each of which
//! names a token and the pattern that its text matches.
use super::{pattern_compiles, regex_compiles};
use vstd::prelude::*;

verus! {

/// One entry of a list of rules: the text of its fields `token` and
/// `pattern`, each `None` where the entry has no such text.
pub struct RuleEntry {
    pub token: Option<String>,
    pub pattern: Option<String>,
}

/// The view of a [`RuleEntry`].
pub struct RuleEntryView {
    pub token: Option<Seq<char>>,
    pub pattern: Option<Seq<char>>,
}

impl View for RuleEntry {
    type V = RuleEntryView;

    open spec fn view(&self) -> RuleEntryView {
        RuleEntryView {
            token: match self.token {
                Some(text) => Some(text@),
                None => None,
            },
            pattern: match self.pattern {
                Some(text) => Some(text@),
                None => None,
            },
        }
    }
}

/// Why a list of entries gives no rules; `index` is the place of the first
/// entry at fault.
#[derive(Debug, Clone, Copy, PartialEq, Eq)]
pub enum RulesError {
    /// The entry names no token.
    MissingToken { index: usize },
    /// The entry has no pattern.
    MissingPattern { index: usize },
    /// The pattern of the entry is no regular expression.
    InvalidPattern { index: usize },
}

/// What is wrong with the entry at `index`, if anything is.
pub open spec fn entry_fault(entry: RuleEntryView, index: usize) -> Option<RulesError> {
    if entry.token is None {
        Some(RulesError::MissingToken { index })
    } else if entry.pattern is None {
        Some(RulesError::MissingPattern { index })
    } else if !regex_compiles(entry.pattern->0) {
        Some(RulesError::InvalidPattern { index })
    } else {
        None
    }
}

/// The rule that a faultless entry gives: the name of its token and its
/// pattern.
pub open spec fn rule_of(entry: RuleEntryView) -> (Seq<char>, Seq<char>) {
    (entry.token->0, entry.pattern->0)
}

/// The fault of the first entry, from the one at `from` on, that has one.
pub open spec fn first_fault(entries: Seq<RuleEntry>, from: nat) -> Option<RulesError>
    decreases entries.len() - from,
{
    if from >= entries.len() {
        None
    } else {
        match entry_fault(entries[from as int]@, from as usize) {
            Some(fault) => Some(fault),
            None => first_fault(entries, from + 1),
        }
    }
}

/// The rules that faultless entries give, in the order of the entries.
pub open spec fn rules_of(entries: Seq<RuleEntry>) -> Seq<(Seq<char>, Seq<char>)> {
    Seq::new(entries.len(), |i: int| rule_of(entries[i]@))
}

/// An ordered list of rules, each with a pattern that is a regular
/// expression.
pub struct Rules {
    rules: Vec<(String, String)>,
}

impl View for Rules {
    type V = Seq<(Seq<char>, Seq<char>)>;

    closed spec fn view(&self) -> Seq<(Seq<char>, Seq<char>)> {
        Seq::new(self.rules@.len(), |i: int| (self.rules@[i].0@, self.rules@[i].1@))
    }
}

impl Rules {
    /// The invariant of a list of rules: every pattern compiles.
    pub closed spec fn wf(&self) -> bool {
        forall|i: int| 0 <= i < self.rules@.len() ==> regex_compiles(#[trigger] self.rules@[i].1@)
    }

    /// In a well-formed list every pattern compiles.
    pub proof fn lemma_patterns_compile(&self)
        requires
            self.wf(),
        ensures
            forall|i: int| 0 <= i < self@.len() ==> regex_compiles(#[trigger] self@[i].1),
    {
    }

    /// No rules.
    pub fn new() -> (rules: Rules)
        ensures
            rules.wf(),
            rules@ == Seq::<(Seq<char>, Seq<char>)>::empty(),
    {
        let rules = Rules { rules: Vec::new() };
        assert(rules@ =~= Seq::empty());
        rules
    }

    /// The rules that `entries` give, in their order; or the fault of the
    /// first entry that has one.
    pub fn from_entries(entries: Vec<RuleEntry>) -> (res: Result<Rules, RulesError>)
        ensures
            (match res {
                Ok(rules) => first_fault(entries@, 0) is None && rules.wf() && rules@ == rules_of(
                    entries@,
                ),
                Err(error) => first_fault(entries@, 0) == Some(error),
            }),
    {
        let mut rules = Rules::new();
        let mut index: usize = 0;
        while index < entries.len()
            invariant
                index <= entries@.len(),
                rules.wf(),
                rules@ == rules_of(entries@.take(index as int)),
                first_fault(entries@, 0) == first_fault(entries@, index as nat),
            decreases entries@.len() - index,
        {
            let entry = &entries[index];
            let token = match &entry.token {
                Some(text) => text.clone(),
                None => {
                    return Err(RulesError::MissingToken { index });
                },
            };
            let pattern = match &entry.pattern {
                Some(text) => text.clone(),
                None => {
                    return Err(RulesError::MissingPattern { index });
                },
            };
            if !pattern_compiles(pattern.as_str()) {
                return Err(RulesError::InvalidPattern { index });
            }
            let ghost before = rules@;
            rules.rules.push((token, pattern));
            assert(rules@ =~= before.push(rule_of(entry@)));
            assert(rules_of(entries@.take(index + 1)) =~= rules_of(entries@.take(index as int)).push(
                rule_of(entry@),
            ));
            index += 1;
        }
        assert(entries@.take(index as int) =~= entries@);
        Ok(rules)
    }

    /// A copy of the rules, in their order.
    pub fn get_rules(&self) -> (rules: Vec<(String, String)>)
        ensures
            rules@.len() == self@.len(),
            forall|i: int|
                0 <= i < rules@.len() ==> (#[trigger] rules@[i].0@, rules@[i].1@) == self@[i],
    {
        let mut copy: Vec<(String, String)> = Vec::new();
        let mut index: usize = 0;
        while index < self.rules.len()
            invariant
                index <= self.rules@.len(),
                copy@.len() == index,
                forall|i: int|
                    0 <= i < index ==> (#[trigger] copy@[i].0@, copy@[i].1@) == self@[i],
            decreases self.rules@.len() - index,
        {
            copy.push((self.rules[index].0.clone(), self.rules[index].1.clone()));
            index += 1;
        }
        copy
    }
}

} // verus!
