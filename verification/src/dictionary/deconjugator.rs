//! Rewriting of inflected words into the dictionary forms they may come from.

use crate::text;
use crate::text::{copy_texts, joined, same_text, same_texts, strip_suffix, trim};
use vstd::prelude::*;

verus! {

/// Number of rounds in which rules are applied to the forms found so far.
pub const MAX_DECONJ_ITERATIONS: usize = 10;

/// A value that may be given as one item or as a list of items.
#[derive(Clone, Debug)]
pub enum OneOrMany<T> {
    One(T),
    Many(Vec<T>),
}

impl<T> OneOrMany<T> {
    /// The items in order.
    pub open spec fn items(&self) -> Seq<T> {
        match self {
            OneOrMany::One(value) => seq![*value],
            OneOrMany::Many(values) => values@,
        }
    }

    /// Number of items.
    pub fn len(&self) -> (r: usize)
        ensures
            r == self.items().len(),
    {
        match self {
            OneOrMany::One(_) => 1,
            OneOrMany::Many(values) => values.len(),
        }
    }

    /// The item at position `index`.
    pub fn item(&self, index: usize) -> (r: &T)
        requires
            index < self.items().len(),
        ensures
            *r == self.items()[index as int],
    {
        match self {
            OneOrMany::One(value) => value,
            OneOrMany::Many(values) => &values[index],
        }
    }
}

/// One deconjugation rule.
#[derive(Clone, Debug)]
pub struct Rule {
    pub rule_type: Option<String>,
    pub dec_end: Option<OneOrMany<String>>,
    pub con_end: Option<OneOrMany<String>>,
    pub dec_tag: Option<OneOrMany<String>>,
    pub con_tag: Option<OneOrMany<String>>,
    pub detail: String,
}

/// A word together with the rules that led to it and its grammatical tags.
#[derive(Debug, PartialEq, Eq, Hash)]
pub struct Form {
    pub text: String,
    pub process: Vec<String>,
    pub tags: Vec<String>,
}

/// The contents of a `Form`.
#[verifier::ext_equal]
pub struct FormView {
    pub text: Seq<char>,
    pub process: Seq<Seq<char>>,
    pub tags: Seq<Seq<char>>,
}

impl View for Form {
    type V = FormView;

    open spec fn view(&self) -> FormView {
        FormView {
            text: self.text@,
            process: text::texts(self.process@),
            tags: text::texts(self.tags@),
        }
    }
}

impl Clone for Form {
    fn clone(&self) -> (r: Self)
        ensures
            r@ == self@,
    {
        Form {
            text: self.text.clone(),
            process: copy_texts(&self.process),
            tags: copy_texts(&self.tags),
        }
    }
}

impl Form {
    /// A form that no rule has been applied to.
    pub fn new(text: &str) -> (r: Self)
        ensures
            r@ == plain_form(text@),
    {
        let r = Form { text: text.to_owned(), process: Vec::new(), tags: Vec::new() };
        assert(r@ =~~= plain_form(text@));
        r
    }

    /// A form with the given history and tags.
    pub fn with_details(text: &str, process: Vec<String>, tags: Vec<String>) -> (r: Self)
        ensures
            r.text@ == text@,
            r.process == process,
            r.tags == tags,
    {
        Form { text: text.to_owned(), process, tags }
    }

    /// Whether two forms have the same contents.
    pub fn same(&self, other: &Form) -> (r: bool)
        ensures
            r == (self@ == other@),
    {
        self.text == other.text && same_texts(&self.process, &other.process) && same_texts(
            &self.tags,
            &other.tags,
        )
    }
}

/// The form with the given text and nothing else.
pub open spec fn plain_form(text: Seq<char>) -> FormView {
    FormView { text, process: Seq::empty(), tags: Seq::empty() }
}

/// The kind of rule, where one is given.
pub open spec fn rule_kind(rule: Rule) -> Option<Seq<char>> {
    match rule.rule_type {
        Some(kind) => Some(kind@),
        None => None,
    }
}

/// The texts of an optional list of strings; an absent list has none.
pub open spec fn endings(list: Option<OneOrMany<String>>) -> Seq<Seq<char>> {
    match list {
        Some(list) => text::texts(list.items()),
        None => Seq::empty(),
    }
}

/// The tag that goes with ending number `i`: a shorter list is repeated, and an empty one
/// stands for no tag.
pub open spec fn tag_for(list: Option<OneOrMany<String>>, i: int) -> Option<Seq<char>> {
    let tags = endings(list);
    if tags.len() == 0 {
        None
    } else {
        Some(tags[i % tags.len() as int])
    }
}

/// The last tag of a form.
pub open spec fn last_tag(form: FormView) -> Option<Seq<char>> {
    if form.tags.len() == 0 {
        None
    } else {
        Some(form.tags[form.tags.len() - 1])
    }
}

/// Whether a rule of this kind may be the first one applied to a word.
pub open spec fn is_starter(kind: Seq<char>) -> bool {
    ||| kind == "stdrule"@
    ||| kind == "rewriterule"@
    ||| kind == "onlyfinalrule"@
    ||| kind == "contextrule"@
}

/// Whether `rule` is considered at all for `form`.
pub open spec fn admits(rule: Rule, form: FormView) -> bool {
    match rule_kind(rule) {
        None => false,
        Some(kind) => {
            &&& kind != "substitution"@
            &&& (kind == "onlyfinalrule"@ ==> form.tags.len() == 0)
            &&& (kind == "neverfinalrule"@ ==> form.tags.len() != 0)
        },
    }
}

/// Whether ending number `i` of `rule` matches `form`.
pub open spec fn ending_applies(rule: Rule, form: FormView, i: int) -> bool {
    let con_ends = endings(rule.con_end);
    let con_end = con_ends[i % con_ends.len() as int];
    &&& 0 <= i < endings(rule.dec_end).len()
    &&& con_ends.len() > 0
    &&& con_end.is_suffix_of(form.text)
    &&& {
        ||| form.tags.len() == 0 && rule_kind(rule) is Some && is_starter(rule_kind(rule)->0)
        ||| last_tag(form) == tag_for(rule.con_tag, i)
    }
    &&& (rule_kind(rule) == Some("rewriterule"@) ==> form.text == con_end)
}

/// The form that ending number `i` of `rule` turns `form` into.
pub open spec fn rewritten(rule: Rule, form: FormView, i: int) -> FormView {
    let con_ends = endings(rule.con_end);
    let con_end = con_ends[i % con_ends.len() as int];
    let stem = form.text.subrange(0, form.text.len() - con_end.len());
    let rest = if form.tags.len() == 0 {
        form.tags
    } else {
        form.tags.subrange(0, form.tags.len() - 1)
    };
    FormView {
        text: stem + endings(rule.dec_end)[i],
        process: form.process.push(rule.detail@),
        tags: match tag_for(rule.dec_tag, i) {
            Some(tag) => rest.push(tag),
            None => rest,
        },
    }
}

/// Whether ending number `i` of `rule` turns `form` into `result`.
pub open spec fn rule_gives(rule: Rule, form: FormView, i: int, result: FormView) -> bool {
    &&& admits(rule, form)
    &&& ending_applies(rule, form, i)
    &&& result == rewritten(rule, form, i)
}

/// Whether one application of one rule turns `form` into `result`.
pub open spec fn derives(rules: Seq<Rule>, form: FormView, result: FormView) -> bool {
    exists|r: int, i: int| 0 <= r < rules.len() && #[trigger] rule_gives(rules[r], form, i, result)
}

/// Whether `form` can be reached from `start` by at most `steps` rule applications.
pub open spec fn reachable(rules: Seq<Rule>, start: FormView, steps: nat, form: FormView) -> bool
    decreases steps,
{
    ||| form == start
    ||| steps > 0 && exists|previous: FormView|
        #![trigger derives(rules, previous, form)]
        reachable(rules, start, (steps - 1) as nat, previous) && derives(rules, previous, form)
}

/// Whether a form with these contents is in the list.
pub open spec fn holds_form(forms: Seq<Form>, form: FormView) -> bool {
    exists|i: int| 0 <= i < forms.len() && (#[trigger] forms[i])@ == form
}

/// Whether no two forms in the list have the same contents.
pub open spec fn distinct_forms(forms: Seq<Form>) -> bool {
    forall|i: int, j: int|
        #![trigger forms[i], forms[j]]
        0 <= i < j < forms.len() ==> forms[i]@ != forms[j]@
}

/// Whether the list holds a form with the contents of `form`.
fn contains_form(forms: &Vec<Form>, form: &Form) -> (r: bool)
    ensures
        r == holds_form(forms@, form@),
{
    let mut i: usize = 0;
    while i < forms.len()
        invariant
            i <= forms@.len(),
            forall|k: int| 0 <= k < i ==> (#[trigger] forms@[k])@ != form@,
        decreases forms@.len() - i,
    {
        if forms[i].same(form) {
            return true;
        }
        i += 1;
    }
    false
}

/// Adds `form` to the list unless it is there already.
fn add_form(forms: &mut Vec<Form>, form: Form)
    requires
        distinct_forms(old(forms)@),
    ensures
        distinct_forms(final(forms)@),
        final(forms)@.len() <= old(forms)@.len() + 1,
        forall|f: FormView|
            #[trigger] holds_form(final(forms)@, f) <==> holds_form(old(forms)@, f) || f == form@,
{
    if contains_form(forms, &form) {
        return;
    }
    let ghost before = forms@;
    forms.push(form);
    assert forall|f: FormView| #[trigger]
        holds_form(forms@, f) <==> holds_form(before, f) || f == form@ by {
        if holds_form(before, f) {
            let i = choose|i: int| 0 <= i < before.len() && (#[trigger] before[i])@ == f;
            assert(forms@[i]@ == f);
        }
        if f == form@ {
            assert(forms@[before.len() as int]@ == f);
        }
        if holds_form(forms@, f) {
            let i = choose|i: int| 0 <= i < forms@.len() && (#[trigger] forms@[i])@ == f;
            if i < before.len() {
                assert(before[i]@ == f);
            }
        }
    }
    assert forall|i: int, j: int|
        #![trigger forms@[i], forms@[j]]
        0 <= i < j < forms@.len() implies forms@[i]@ != forms@[j]@ by {
        assert(before[i] == forms@[i]);
        if j < before.len() {
            assert(before[j] == forms@[j]);
        }
    }
}

/// The text at position `i` of a list that is repeated as often as needed.
fn repeated_item(list: &OneOrMany<String>, i: usize) -> (r: &String)
    requires
        list.items().len() > 0,
    ensures
        r@ == text::texts(list.items())[i as int % list.items().len() as int],
{
    list.item(i % list.len())
}

/// The tag at position `i` of an optional list.
fn repeated_tag(list: &Option<OneOrMany<String>>, i: usize) -> (r: Option<&String>)
    ensures
        match (r, tag_for(*list, i as int)) {
            (Some(tag), Some(text)) => tag@ == text,
            (None, None) => true,
            _ => false,
        },
{
    match list {
        Some(tags) => if tags.len() == 0 {
            None
        } else {
            Some(repeated_item(tags, i))
        },
        None => None,
    }
}

/// Whether a form with the given tags agrees with the tag that an ending asks for.
fn tag_agrees(tags: &Vec<String>, wanted: Option<&String>) -> (r: bool)
    ensures
        r == (match wanted {
            Some(tag) => tags@.len() > 0 && tags@[tags@.len() - 1]@ == tag@,
            None => tags@.len() == 0,
        }),
{
    match wanted {
        Some(tag) => tags.len() > 0 && tags[tags.len() - 1] == *tag,
        None => tags.len() == 0,
    }
}

/// A set of deconjugation rules.
#[derive(Clone, Debug)]
pub struct Deconjugator {
    pub rules: Vec<Rule>,
}

impl Deconjugator {
    /// A deconjugator with the given rules.
    pub fn new(rules: Vec<Rule>) -> (r: Self)
        ensures
            r.rules == rules,
    {
        Deconjugator { rules }
    }

    /// The form that ending number `i` of `rule` gives, if it applies.
    fn apply_ending(form: &Form, rule: &Rule, i: usize) -> (r: Option<Form>)
        requires
            i < endings(rule.dec_end).len(),
            endings(rule.con_end).len() > 0,
        ensures
            r is Some <==> ending_applies(*rule, form@, i as int),
            r is Some ==> r->0@ == rewritten(*rule, form@, i as int),
    {
        let (dec_ends, con_ends) = match (&rule.dec_end, &rule.con_end) {
            (Some(dec_ends), Some(con_ends)) => (dec_ends, con_ends),
            _ => return None,
        };
        let con_end = repeated_item(con_ends, i);
        let dec_end = dec_ends.item(i);
        let stem = match strip_suffix(form.text.as_str(), con_end.as_str()) {
            Some(stem) => stem,
            None => return None,
        };
        let (starter, rewrites) = match &rule.rule_type {
            Some(kind) => {
                let kind = kind.as_str();
                let rewrites = same_text(kind, "rewriterule");
                (
                    same_text(kind, "stdrule") || rewrites || same_text(kind, "onlyfinalrule")
                        || same_text(kind, "contextrule"),
                    rewrites,
                )
            },
            None => (false, false),
        };
        let con_tag = repeated_tag(&rule.con_tag, i);
        let agrees = tag_agrees(&form.tags, con_tag);
        proof {
            assert(agrees == (last_tag(form@) == tag_for(rule.con_tag, i as int)));
        }
        if !((form.tags.len() == 0 && starter) || agrees) {
            return None;
        }
        if rewrites && form.text != *con_end {
            return None;
        }
        let mut process = copy_texts(&form.process);
        let ghost before = process@;
        process.push(rule.detail.clone());
        assert(text::texts(process@) =~= form@.process.push(rule.detail@)) by {
            assert(text::texts(before) == form@.process);
            assert forall|k: int| 0 <= k < before.len() implies process@[k]@
                == form@.process[k] by {
                assert(text::texts(before)[k] == before[k]@);
            }
        }
        let mut tags = copy_texts(&form.tags);
        let ghost all = tags@;
        assert(text::texts(all) == form@.tags);
        assert forall|k: int| 0 <= k < all.len() implies (#[trigger] all[k])@ == form@.tags[k] by {
            assert(text::texts(all)[k] == all[k]@);
        }
        if tags.len() > 0 {
            let _ = tags.pop();
        }
        let ghost rest = if form@.tags.len() == 0 {
            form@.tags
        } else {
            form@.tags.subrange(0, form@.tags.len() - 1)
        };
        assert(text::texts(tags@) =~= rest) by {
            assert forall|k: int| 0 <= k < tags@.len() implies tags@[k]@ == rest[k] by {
                assert(tags@[k] == all[k]);
            }
        }
        let ghost popped = tags@;
        if let Some(tag) = repeated_tag(&rule.dec_tag, i) {
            tags.push(tag.clone());
            assert(text::texts(tags@) =~= rest.push(tag@)) by {
                assert forall|k: int| 0 <= k < popped.len() implies tags@[k]@ == rest[k] by {
                    assert(text::texts(popped)[k] == popped[k]@);
                }
            }
        }
        let text = joined(stem.as_str(), dec_end.as_str());
        let r = Form::with_details(text.as_str(), process, tags);
        assert(r@.text == rewritten(*rule, form@, i as int).text) by {
            assert(i as int % dec_ends.items().len() as int == i) by (nonlinear_arith)
                requires
                    i < dec_ends.items().len(),
            ;
        }
        Some(r)
    }

    /// The forms that `rule` turns `form` into: `None` when there are none.
    fn apply_rule(form: &Form, rule: &Rule) -> (r: Option<Vec<Form>>)
        ensures
            r is None <==> forall|i: int| !#[trigger] ending_applies(*rule, form@, i),
            r is Some ==> distinct_forms(r->0@),
            r is Some ==> 1 <= r->0@.len() <= endings(rule.dec_end).len(),
            r is Some ==> forall|f: FormView| #[trigger]
                holds_form(r->0@, f) <==> exists|i: int| #[trigger]
                    ending_applies(*rule, form@, i) && f == rewritten(*rule, form@, i),
    {
        let (dec_ends, con_ends) = match (&rule.dec_end, &rule.con_end) {
            (Some(dec_ends), Some(con_ends)) => (dec_ends, con_ends),
            _ => return None,
        };
        if dec_ends.len() == 0 || con_ends.len() == 0 {
            return None;
        }
        let count: usize = dec_ends.len();
        let mut results: Vec<Form> = Vec::new();
        let mut i: usize = 0;
        while i < count
            invariant
                i <= count,
                count == endings(rule.dec_end).len(),
                endings(rule.con_end).len() > 0,
                results@.len() <= i,
                distinct_forms(results@),
                forall|f: FormView| #[trigger]
                    holds_form(results@, f) <==> exists|k: int|
                        0 <= k < i && #[trigger] ending_applies(*rule, form@, k) && f == rewritten(
                            *rule,
                            form@,
                            k,
                        ),
            decreases count - i,
        {
            let ghost before = results@;
            let produced = Self::apply_ending(form, rule, i);
            if let Some(new_form) = produced {
                add_form(&mut results, new_form);
            }
            assert forall|f: FormView| #[trigger]
                holds_form(results@, f) <==> exists|k: int|
                    0 <= k < i + 1 && #[trigger] ending_applies(*rule, form@, k) && f == rewritten(
                        *rule,
                        form@,
                        k,
                    ) by {
                assert(holds_form(before, f) ==> holds_form(results@, f));
                if holds_form(results@, f) && !holds_form(before, f) {
                    assert(ending_applies(*rule, form@, i as int));
                }
            }
            i += 1;
        }
        if results.len() == 0 {
            assert forall|k: int| !#[trigger] ending_applies(*rule, form@, k) by {
                if ending_applies(*rule, form@, k) {
                    assert(holds_form(results@, rewritten(*rule, form@, k)));
                }
            }
            None
        } else {
            assert(holds_form(results@, results@[0]@));
            Some(results)
        }
    }

    /// Adds to `found` the forms that `rule` turns `form` into and that are not known yet.
    fn collect_from_rule(
        rule: &Rule,
        form: &Form,
        processed: &Vec<Form>,
        novel: &Vec<Form>,
        found: &mut Vec<Form>,
    )
        requires
            distinct_forms(old(found)@),
        ensures
            distinct_forms(final(found)@),
            forall|f: FormView| #[trigger]
                holds_form(final(found)@, f) <==> holds_form(old(found)@, f) || (!holds_form(
                    processed@,
                    f,
                ) && !holds_form(novel@, f) && exists|i: int| #[trigger]
                    rule_gives(*rule, form@, i, f)),
    {
        let kind = match &rule.rule_type {
            Some(kind) => kind.as_str(),
            None => return,
        };
        if same_text(kind, "substitution") {
            return;
        }
        if same_text(kind, "onlyfinalrule") && form.tags.len() > 0 {
            return;
        }
        if same_text(kind, "neverfinalrule") && form.tags.len() == 0 {
            return;
        }
        let ghost before = found@;
        assert(admits(*rule, form@));
        match Self::apply_rule(form, rule) {
            None => {
                assert forall|f: FormView, i: int| !#[trigger] rule_gives(*rule, form@, i, f) by {
                    assert(!ending_applies(*rule, form@, i));
                }
            },
            Some(new_forms) => {
                let mut k: usize = 0;
                while k < new_forms.len()
                    invariant
                        k <= new_forms@.len(),
                        distinct_forms(found@),
                        forall|f: FormView| #[trigger]
                            holds_form(found@, f) <==> holds_form(before, f) || (!holds_form(
                                processed@,
                                f,
                            ) && !holds_form(novel@, f) && holds_form(
                                new_forms@.take(k as int),
                                f,
                            )),
                    decreases new_forms@.len() - k,
                {
                    let form_here = &new_forms[k];
                    let ghost so_far = found@;
                    if !contains_form(processed, form_here) && !contains_form(novel, form_here) {
                        add_form(found, form_here.clone());
                    }
                    assert forall|f: FormView| #[trigger]
                        holds_form(new_forms@.take(k + 1), f) <==> holds_form(
                            new_forms@.take(k as int),
                            f,
                        ) || f == form_here@ by {
                        lemma_holds_push(new_forms@.take(k as int), *form_here, f);
                        assert(new_forms@.take(k + 1) =~= new_forms@.take(k as int).push(
                            *form_here,
                        ));
                    }
                    assert forall|f: FormView| #[trigger]
                        holds_form(found@, f) <==> holds_form(before, f) || (!holds_form(
                            processed@,
                            f,
                        ) && !holds_form(novel@, f) && holds_form(new_forms@.take(k + 1), f)) by {
                        assert(holds_form(so_far, f) ==> holds_form(found@, f));
                    }
                    k += 1;
                }
                assert(new_forms@.take(k as int) =~= new_forms@);
                assert forall|f: FormView|
                    (exists|i: int| #[trigger] rule_gives(*rule, form@, i, f)) <==> #[trigger]
                    holds_form(new_forms@, f) by {
                    if holds_form(new_forms@, f) {
                        let i = choose|i: int| #[trigger]
                            ending_applies(*rule, form@, i) && f == rewritten(*rule, form@, i);
                        assert(rule_gives(*rule, form@, i, f));
                    }
                    if exists|i: int| #[trigger] rule_gives(*rule, form@, i, f) {
                        let i = choose|i: int| #[trigger] rule_gives(*rule, form@, i, f);
                        assert(ending_applies(*rule, form@, i));
                    }
                }
            },
        }
    }

    /// Adds to `found` the forms that one rule turns `form` into and that are not known yet.
    fn collect_from_form(
        &self,
        form: &Form,
        processed: &Vec<Form>,
        novel: &Vec<Form>,
        found: &mut Vec<Form>,
    )
        requires
            distinct_forms(old(found)@),
        ensures
            distinct_forms(final(found)@),
            forall|f: FormView| #[trigger]
                holds_form(final(found)@, f) <==> holds_form(old(found)@, f) || (!holds_form(
                    processed@,
                    f,
                ) && !holds_form(novel@, f) && derives(self.rules@, form@, f)),
    {
        let ghost before = found@;
        let mut k: usize = 0;
        while k < self.rules.len()
            invariant
                k <= self.rules@.len(),
                distinct_forms(found@),
                forall|f: FormView| #[trigger]
                    holds_form(found@, f) <==> holds_form(before, f) || (!holds_form(processed@, f)
                        && !holds_form(novel@, f) && derives(
                        self.rules@.take(k as int),
                        form@,
                        f,
                    )),
            decreases self.rules@.len() - k,
        {
            let ghost so_far = found@;
            Self::collect_from_rule(&self.rules[k], form, processed, novel, found);
            assert forall|f: FormView| #[trigger]
                holds_form(found@, f) <==> holds_form(before, f) || (!holds_form(processed@, f)
                    && !holds_form(novel@, f) && derives(
                    self.rules@.take(k + 1),
                    form@,
                    f,
                )) by {
                lemma_derives_push(self.rules@, k as int, form@, f);
                assert(holds_form(so_far, f) ==> holds_form(found@, f));
            }
            k += 1;
        }
        assert(self.rules@.take(k as int) =~= self.rules@);
    }

    /// All forms that rules make of `text`, without the white space around it, itself
    /// included; no form occurs twice. Blank text has none.
    pub fn deconjugate(&self, text: &str) -> (r: Vec<Form>)
        ensures
            distinct_forms(r@),
            forall|f: FormView| #[trigger]
                holds_form(r@, f) <==> is_deconjugation(self.rules@, text@, f),
    {
        let clean_text = trim(text);
        if clean_text.as_str().is_empty() {
            return Vec::new();
        }
        let ghost rules = self.rules@;
        let ghost start = plain_form(clean_text@);
        let mut processed: Vec<Form> = Vec::new();
        let mut novel: Vec<Form> = Vec::new();
        novel.push(Form::new(clean_text.as_str()));
        assert(novel@[0]@ == start);
        let mut round: usize = 0;
        while round < MAX_DECONJ_ITERATIONS && novel.len() > 0
            invariant
                round <= MAX_DECONJ_ITERATIONS,
                rules == self.rules@,
                round == 0 ==> processed@.len() == 0 && novel@.len() > 0,
                distinct_forms(processed@),
                distinct_forms(novel@),
                forall|f: FormView| #![trigger holds_form(processed@, f)]
                    !(holds_form(processed@, f) && holds_form(novel@, f)),
                forall|f: FormView| #[trigger]
                    reachable(rules, start, round as nat, f) <==> holds_form(processed@, f)
                        || holds_form(novel@, f),
                round > 0 ==> forall|f: FormView| #[trigger]
                    holds_form(processed@, f) <==> reachable(rules, start, (round - 1) as nat, f),
            decreases MAX_DECONJ_ITERATIONS - round,
        {
            let mut found: Vec<Form> = Vec::new();
            let mut k: usize = 0;
            while k < novel.len()
                invariant
                    k <= novel@.len(),
                    rules == self.rules@,
                    distinct_forms(found@),
                    forall|f: FormView| #[trigger]
                        holds_form(found@, f) <==> !holds_form(processed@, f) && !holds_form(
                            novel@,
                            f,
                        ) && exists|j: int| 0 <= j < k && #[trigger] derives(rules, novel@[j]@, f),
                decreases novel@.len() - k,
            {
                let ghost so_far = found@;
                self.collect_from_form(&novel[k], &processed, &novel, &mut found);
                assert forall|f: FormView| #[trigger]
                    holds_form(found@, f) <==> !holds_form(processed@, f) && !holds_form(novel@, f)
                        && exists|j: int|
                        0 <= j < k + 1 && #[trigger] derives(rules, novel@[j]@, f) by {
                    assert(holds_form(so_far, f) ==> holds_form(found@, f));
                    if exists|j: int| 0 <= j < k + 1 && #[trigger] derives(rules, novel@[j]@, f) {
                        let j = choose|j: int|
                            0 <= j < k + 1 && #[trigger] derives(rules, novel@[j]@, f);
                        if j < k {
                            assert(exists|j: int|
                                0 <= j < k && #[trigger] derives(rules, novel@[j]@, f));
                        }
                    }
                }
                k += 1;
            }
            let ghost known = processed@;
            let ghost fresh = novel@;
            let ghost next = found@;
            let ghost done = round as nat;
            assert forall|f: FormView| #[trigger]
                reachable(rules, start, done + 1, f) <==> reachable(rules, start, done, f)
                    || holds_form(next, f) by {
                lemma_round(rules, start, done, known, fresh, next, f);
            }
            let mut moved: usize = 0;
            while moved < novel.len()
                invariant
                    moved <= novel@.len(),
                    novel@ == fresh,
                    distinct_forms(processed@),
                    forall|f: FormView| #[trigger]
                        holds_form(processed@, f) <==> holds_form(known, f) || holds_form(
                            fresh.take(moved as int),
                            f,
                        ),
                decreases novel@.len() - moved,
            {
                let ghost so_far = processed@;
                add_form(&mut processed, novel[moved].clone());
                assert forall|f: FormView| #[trigger]
                    holds_form(processed@, f) <==> holds_form(known, f) || holds_form(
                        fresh.take(moved + 1),
                        f,
                    ) by {
                    lemma_holds_push(fresh.take(moved as int), fresh[moved as int], f);
                    assert(fresh.take(moved + 1) =~= fresh.take(moved as int).push(
                        fresh[moved as int],
                    ));
                    assert(holds_form(so_far, f) ==> holds_form(processed@, f));
                }
                moved += 1;
            }
            assert(fresh.take(moved as int) =~= fresh);
            novel = found;
            round += 1;
            assert forall|f: FormView| #[trigger]
                holds_form(processed@, f) <==> reachable(rules, start, (round - 1) as nat, f) by {
                assert(reachable(rules, start, (round - 1) as nat, f) <==> holds_form(known, f)
                    || holds_form(fresh, f));
            }
            assert forall|f: FormView| #[trigger]
                reachable(rules, start, round as nat, f) <==> holds_form(processed@, f)
                    || holds_form(novel@, f) by {
                assert(round as nat == done + 1 && (round - 1) as nat == done);
                assert(holds_form(processed@, f) <==> reachable(rules, start, done, f));
            }
        }
        proof {
            assert(round > 0);
            assert forall|f: FormView| #[trigger]
                holds_form(processed@, f) <==> reachable(
                    rules,
                    start,
                    (MAX_DECONJ_ITERATIONS - 1) as nat,
                    f,
                ) by {
                if round < MAX_DECONJ_ITERATIONS {
                    assert forall|g: FormView|
                        reachable(rules, start, round as nat, g) implies #[trigger] reachable(
                        rules,
                        start,
                        (round - 1) as nat,
                        g,
                    ) by {
                        assert(holds_form(processed@, g));
                    }
                    lemma_fixpoint(
                        rules,
                        start,
                        (round - 1) as nat,
                        (MAX_DECONJ_ITERATIONS - 1) as nat,
                        f,
                    );
                }
            }
        }
        processed
    }
}

/// Whether rules make `form` of `text`: the white space around the text is dropped, what is
/// left is not empty, and fewer rule applications than there are rounds lead to the form.
pub open spec fn is_deconjugation(rules: Seq<Rule>, text: Seq<char>, form: FormView) -> bool {
    let clean = text::trimmed(text);
    &&& clean.len() > 0
    &&& reachable(rules, plain_form(clean), (MAX_DECONJ_ITERATIONS - 1) as nat, form)
}

proof fn lemma_holds_push(forms: Seq<Form>, last: Form, f: FormView)
    ensures
        holds_form(forms.push(last), f) <==> holds_form(forms, f) || f == last@,
{
    let all = forms.push(last);
    if holds_form(forms, f) {
        let i = choose|i: int| 0 <= i < forms.len() && (#[trigger] forms[i])@ == f;
        assert(all[i]@ == f);
    }
    if f == last@ {
        assert(all[forms.len() as int]@ == f);
    }
    if holds_form(all, f) {
        let i = choose|i: int| 0 <= i < all.len() && (#[trigger] all[i])@ == f;
        if i < forms.len() {
            assert(forms[i]@ == f);
        }
    }
}

proof fn lemma_derives_push(rules: Seq<Rule>, k: int, form: FormView, f: FormView)
    requires
        0 <= k < rules.len(),
    ensures
        derives(rules.take(k + 1), form, f) <==> derives(rules.take(k), form, f) || exists|i: int|
            #[trigger] rule_gives(rules[k], form, i, f),
{
    let longer = rules.take(k + 1);
    let shorter = rules.take(k);
    if derives(shorter, form, f) {
        let (r, i) = choose|r: int, i: int|
            0 <= r < shorter.len() && #[trigger] rule_gives(shorter[r], form, i, f);
        assert(rule_gives(longer[r], form, i, f));
    }
    if exists|i: int| #[trigger] rule_gives(rules[k], form, i, f) {
        let i = choose|i: int| #[trigger] rule_gives(rules[k], form, i, f);
        assert(rule_gives(longer[k], form, i, f));
    }
    if derives(longer, form, f) {
        let (r, i) = choose|r: int, i: int|
            0 <= r < longer.len() && #[trigger] rule_gives(longer[r], form, i, f);
        if r < k {
            assert(rule_gives(shorter[r], form, i, f));
        } else {
            assert(rule_gives(rules[k], form, i, f));
        }
    }
}

/// One more round of rule applications to the forms that are new since the last round.
proof fn lemma_round(
    rules: Seq<Rule>,
    start: FormView,
    round: nat,
    known: Seq<Form>,
    fresh: Seq<Form>,
    found: Seq<Form>,
    f: FormView,
)
    requires
        round == 0 ==> known.len() == 0,
        forall|g: FormView| #[trigger]
            reachable(rules, start, round, g) <==> holds_form(known, g) || holds_form(fresh, g),
        round > 0 ==> forall|g: FormView| #[trigger]
            holds_form(known, g) <==> reachable(rules, start, (round - 1) as nat, g),
        forall|g: FormView| #[trigger]
            holds_form(found, g) <==> !holds_form(known, g) && !holds_form(fresh, g) && exists|
                j: int,
            |
                0 <= j < fresh.len() && #[trigger] derives(rules, fresh[j]@, g),
    ensures
        reachable(rules, start, round + 1, f) <==> reachable(rules, start, round, f) || holds_form(
            found,
            f,
        ),
{
    if holds_form(found, f) {
        let j = choose|j: int| 0 <= j < fresh.len() && #[trigger] derives(rules, fresh[j]@, f);
        assert(holds_form(fresh, fresh[j]@));
        assert(reachable(rules, start, round, fresh[j]@));
    }
    if reachable(rules, start, round, f) {
        lemma_reachable_monotone(rules, start, round, round + 1, f);
    }
    if reachable(rules, start, round + 1, f) && !reachable(rules, start, round, f) {
        assert(reachable(rules, start, 0, start));
        lemma_reachable_monotone(rules, start, 0, round, start);
        let previous = choose|previous: FormView|
            #![trigger derives(rules, previous, f)]
            reachable(rules, start, round, previous) && derives(rules, previous, f);
        if holds_form(known, previous) {
            assert(round > 0);
            assert(reachable(rules, start, (round - 1) as nat, previous));
            assert(reachable(rules, start, round, f));
        }
        assert(holds_form(fresh, previous));
        let j = choose|j: int| 0 <= j < fresh.len() && (#[trigger] fresh[j])@ == previous;
        assert(derives(rules, fresh[j]@, f));
    }
}

/// What can be reached in some number of steps can be reached in any greater number.
pub proof fn lemma_reachable_monotone(
    rules: Seq<Rule>,
    start: FormView,
    fewer: nat,
    more: nat,
    form: FormView,
)
    requires
        fewer <= more,
        reachable(rules, start, fewer, form),
    ensures
        reachable(rules, start, more, form),
    decreases more,
{
    if form != start {
        let previous = choose|previous: FormView|
            #![trigger derives(rules, previous, form)]
            reachable(rules, start, (fewer - 1) as nat, previous) && derives(rules, previous, form);
        lemma_reachable_monotone(
            rules,
            start,
            (fewer - 1) as nat,
            (more - 1) as nat,
            previous,
        );
    }
}

/// Once a further step reaches nothing new, no number of further steps does.
proof fn lemma_fixpoint(
    rules: Seq<Rule>,
    start: FormView,
    steps: nat,
    more: nat,
    form: FormView,
)
    requires
        steps <= more,
        forall|g: FormView|
            reachable(rules, start, steps + 1, g) ==> #[trigger] reachable(rules, start, steps, g),
    ensures
        reachable(rules, start, more, form) <==> reachable(rules, start, steps, form),
    decreases more,
{
    if reachable(rules, start, steps, form) {
        lemma_reachable_monotone(rules, start, steps, more, form);
    }
    if reachable(rules, start, more, form) && more > steps {
        if form == start {
            assert(reachable(rules, start, steps, start));
        } else {
            let previous = choose|previous: FormView|
                #![trigger derives(rules, previous, form)]
                reachable(rules, start, (more - 1) as nat, previous) && derives(
                    rules,
                    previous,
                    form,
                );
            lemma_fixpoint(rules, start, steps, (more - 1) as nat, previous);
            assert(reachable(rules, start, steps + 1, form));
        }
    }
}

/// Text that is not blank is among its own deconjugations.
pub proof fn law_text_is_its_own_deconjugation(rules: Seq<Rule>, text: Seq<char>)
    requires
        text::trimmed(text).len() > 0,
    ensures
        is_deconjugation(rules, text, plain_form(text::trimmed(text))),
{
}

/// Without rules a text has no deconjugation but itself.
pub proof fn law_no_rules_no_rewriting(text: Seq<char>, form: FormView)
    requires
        is_deconjugation(Seq::empty(), text, form),
    ensures
        form == plain_form(text::trimmed(text)),
{
}

/// Further rules take no deconjugation away.
pub proof fn law_more_rules_keep_forms(
    rules: Seq<Rule>,
    more: Seq<Rule>,
    text: Seq<char>,
    form: FormView,
)
    requires
        is_deconjugation(rules, text, form),
    ensures
        is_deconjugation(rules + more, text, form),
{
    lemma_more_rules_reach(
        rules,
        more,
        plain_form(text::trimmed(text)),
        (MAX_DECONJ_ITERATIONS - 1) as nat,
        form,
    );
}

proof fn lemma_more_rules_reach(
    rules: Seq<Rule>,
    more: Seq<Rule>,
    start: FormView,
    steps: nat,
    form: FormView,
)
    requires
        reachable(rules, start, steps, form),
    ensures
        reachable(rules + more, start, steps, form),
    decreases steps,
{
    if form != start {
        let previous = choose|previous: FormView|
            #![trigger derives(rules, previous, form)]
            reachable(rules, start, (steps - 1) as nat, previous) && derives(rules, previous, form);
        lemma_more_rules_reach(rules, more, start, (steps - 1) as nat, previous);
        let (r, i) = choose|r: int, i: int|
            0 <= r < rules.len() && #[trigger] rule_gives(rules[r], previous, i, form);
        assert(rule_gives((rules + more)[r], previous, i, form));
        assert(derives(rules + more, previous, form));
    }
}

/// The history of a deconjugation has one entry per applied rule, so it is shorter than the
/// number of rounds.
pub proof fn law_history_is_bounded(rules: Seq<Rule>, text: Seq<char>, form: FormView)
    requires
        is_deconjugation(rules, text, form),
    ensures
        form.process.len() < MAX_DECONJ_ITERATIONS,
{
    lemma_history_length(
        rules,
        plain_form(text::trimmed(text)),
        (MAX_DECONJ_ITERATIONS - 1) as nat,
        form,
    );
}

proof fn lemma_history_length(rules: Seq<Rule>, start: FormView, steps: nat, form: FormView)
    requires
        start.process.len() == 0,
        reachable(rules, start, steps, form),
    ensures
        form.process.len() <= steps,
    decreases steps,
{
    if form != start {
        let previous = choose|previous: FormView|
            #![trigger derives(rules, previous, form)]
            reachable(rules, start, (steps - 1) as nat, previous) && derives(rules, previous, form);
        lemma_history_length(rules, start, (steps - 1) as nat, previous);
    }
}

/// Whether a list of texts has `text` at place `i`.
pub open spec fn has_at(list: Option<OneOrMany<String>>, i: int, text: Seq<char>) -> bool {
    match list {
        Some(OneOrMany::One(only)) => i == 0 && text == only@,
        Some(OneOrMany::Many(many)) => 0 <= i < many@.len() && text == many@[i]@,
        None => false,
    }
}

/// Whether a list of texts, repeated as often as needed, has `text` at place `i`.
pub open spec fn repeats_at(list: Option<OneOrMany<String>>, i: int, text: Seq<char>) -> bool {
    match list {
        Some(OneOrMany::One(only)) => text == only@,
        Some(OneOrMany::Many(many)) => many@.len() > 0 && text == many@[i % many@.len() as int]@,
        None => false,
    }
}

/// Whether a list of texts is missing or empty.
pub open spec fn has_none(list: Option<OneOrMany<String>>) -> bool {
    match list {
        Some(OneOrMany::One(_)) => false,
        Some(OneOrMany::Many(many)) => many@.len() == 0,
        None => true,
    }
}

/// One step of a deconjugation, at ending `i` of a rule: `before` is a stem with the conjugated
/// ending `con`, `after` the stem with the dictionary ending `dec`. The rule's detail joins the
/// history, and `tag`, where the rule gives one, takes the place of the last tag.
pub open spec fn is_step(
    rule: Rule,
    i: int,
    before: FormView,
    after: FormView,
    stem: Seq<char>,
    con: Seq<char>,
    dec: Seq<char>,
    tag: Option<Seq<char>>,
) -> bool {
    let tagged = before.tags.len() > 0;
    &&& has_at(rule.dec_end, i, dec)
    &&& repeats_at(rule.con_end, i, con)
    &&& before.text == stem + con
    &&& after.text == stem + dec
    &&& after.process == before.process.push(rule.detail@)
    &&& match tag {
        Some(tag) => {
            &&& repeats_at(rule.dec_tag, i, tag)
            &&& after.tags.len() == (if tagged {
                before.tags.len()
            } else {
                1
            })
            &&& after.tags.last() == tag
        },
        None => {
            &&& has_none(rule.dec_tag)
            &&& after.tags.len() == (if tagged {
                before.tags.len() - 1
            } else {
                0
            })
        },
    }
    &&& forall|k: int| 0 <= k < before.tags.len() - 1 ==> #[trigger] after.tags[k] == before.tags[k]
    &&& match rule.rule_type {
        None => false,
        Some(kind) => {
            &&& kind@ != "substitution"@
            &&& (kind@ == "onlyfinalrule"@ ==> !tagged)
            &&& (kind@ == "neverfinalrule"@ ==> tagged)
            &&& (kind@ == "rewriterule"@ ==> stem.len() == 0)
            &&& if tagged {
                repeats_at(rule.con_tag, i, before.tags.last())
            } else {
                ||| kind@ == "stdrule"@
                ||| kind@ == "rewriterule"@
                ||| kind@ == "onlyfinalrule"@
                ||| kind@ == "contextrule"@
                ||| has_none(rule.con_tag)
            }
        },
    }
}

proof fn lemma_lists(list: Option<OneOrMany<String>>, i: int)
    ensures
        has_none(list) <==> endings(list).len() == 0,
        0 <= i < endings(list).len() ==> has_at(list, i, endings(list)[i]),
        endings(list).len() > 0 ==> repeats_at(
            list,
            i,
            endings(list)[i % endings(list).len() as int],
        ),
        forall|text: Seq<char>| #[trigger]
            has_at(list, i, text) ==> 0 <= i < endings(list).len() && endings(list)[i] == text,
        forall|text: Seq<char>| #[trigger]
            repeats_at(list, i, text) ==> endings(list).len() > 0 && endings(list)[i % endings(
                list,
            ).len() as int] == text,
{
    match list {
        Some(OneOrMany::One(only)) => {
            assert(endings(list) =~= seq![only@]);
            assert(i % 1 == 0) by (nonlinear_arith);
        },
        _ => {},
    }
}

proof fn lemma_steps_of_history(rules: Seq<Rule>, start: FormView, steps: nat, form: FormView)
    requires
        start.process.len() == 0,
        reachable(rules, start, steps, form),
    ensures
        reachable(rules, start, form.process.len(), form),
        form.process.len() == 0 ==> form == start,
    decreases steps,
{
    if form != start {
        let previous = choose|previous: FormView|
            #![trigger derives(rules, previous, form)]
            reachable(rules, start, (steps - 1) as nat, previous) && derives(rules, previous, form);
        lemma_steps_of_history(rules, start, (steps - 1) as nat, previous);
        assert(form.process.len() == previous.process.len() + 1);
    }
}

/// Every step that a rule allows leads from a deconjugation to a deconjugation, as long as no
/// more than nine rules were applied.
pub proof fn law_steps_lead_to_deconjugations(
    rules: Seq<Rule>,
    text: Seq<char>,
    r: int,
    i: int,
    before: FormView,
    after: FormView,
    stem: Seq<char>,
    con: Seq<char>,
    dec: Seq<char>,
    tag: Option<Seq<char>>,
)
    requires
        is_deconjugation(rules, text, before),
        before.process.len() < 9,
        0 <= r < rules.len(),
        is_step(rules[r], i, before, after, stem, con, dec, tag),
    ensures
        is_deconjugation(rules, text, after),
{
    let rule = rules[r];
    let start = plain_form(text::trimmed(text));
    lemma_lists(rule.dec_end, i);
    lemma_lists(rule.con_end, i);
    lemma_lists(rule.con_tag, i);
    lemma_lists(rule.dec_tag, i);
    lemma_steps_of_history(rules, start, (MAX_DECONJ_ITERATIONS - 1) as nat, before);
    let n = before.text.len();
    assert(before.text.subrange(n - con.len(), n as int) =~= con);
    assert(con.is_suffix_of(before.text));
    assert(before.text.subrange(0, n - con.len()) =~= stem);
    if stem.len() == 0 {
        assert(before.text =~= con);
    }
    assert(ending_applies(rule, before, i));
    assert(after =~= rewritten(rule, before, i)) by {
        assert(after.tags =~= rewritten(rule, before, i).tags);
    }
    assert(rule_gives(rule, before, i, after));
    assert(derives(rules, before, after));
    assert(reachable(rules, start, before.process.len() + 1, after));
    lemma_reachable_monotone(
        rules,
        start,
        before.process.len() + 1,
        (MAX_DECONJ_ITERATIONS - 1) as nat,
        after,
    );
}

/// A deconjugation without a history is the text itself, without the white space around it;
/// every other one comes of a deconjugation with a shorter history by a step that a rule allows.
pub proof fn law_deconjugations_come_of_steps(
    rules: Seq<Rule>,
    text: Seq<char>,
    after: FormView,
) -> (found: (int, int, FormView, Seq<char>, Seq<char>, Seq<char>, Option<Seq<char>>))
    requires
        is_deconjugation(rules, text, after),
    ensures
        after.process.len() <= 9,
        if after.process.len() == 0 {
            after.text == text::trimmed(text) && after.tags.len() == 0
        } else {
            let (r, i, before, stem, con, dec, tag) = found;
            &&& 0 <= r < rules.len()
            &&& is_deconjugation(rules, text, before)
            &&& is_step(rules[r], i, before, after, stem, con, dec, tag)
        },
{
    let start = plain_form(text::trimmed(text));
    let steps = (MAX_DECONJ_ITERATIONS - 1) as nat;
    law_history_is_bounded(rules, text, after);
    lemma_steps_of_history(rules, start, steps, after);
    if after.process.len() == 0 {
        (0, 0, after, after.text, after.text, after.text, None)
    } else {
        let before = choose|previous: FormView|
            #![trigger derives(rules, previous, after)]
            reachable(rules, start, (steps - 1) as nat, previous) && derives(
                rules,
                previous,
                after,
            );
        lemma_reachable_monotone(rules, start, (steps - 1) as nat, steps, before);
        let (r, i) = choose|r: int, i: int|
            0 <= r < rules.len() && #[trigger] rule_gives(rules[r], before, i, after);
        let rule = rules[r];
        lemma_lists(rule.dec_end, i);
        lemma_lists(rule.con_end, i);
        lemma_lists(rule.con_tag, i);
        lemma_lists(rule.dec_tag, i);
        let con_ends = endings(rule.con_end);
        let con = con_ends[i % con_ends.len() as int];
        let dec = endings(rule.dec_end)[i];
        let stem = before.text.subrange(0, before.text.len() - con.len());
        let tag = tag_for(rule.dec_tag, i);
        assert(before.text =~= stem + con);
        assert(is_step(rule, i, before, after, stem, con, dec, tag));
        (r, i, before, stem, con, dec, tag)
    }
}

/// The text itself, without the white space around it, has no history and no tags; blank text has
/// no deconjugations at all.
pub proof fn law_blank_text_has_no_deconjugations(rules: Seq<Rule>, text: Seq<char>)
    ensures
        (exists|form: FormView| #[trigger] is_deconjugation(rules, text, form))
            <==> text::trimmed(text).len() > 0,
        text::trimmed(text).len() > 0 ==> is_deconjugation(
            rules,
            text,
            FormView { text: text::trimmed(text), process: Seq::empty(), tags: Seq::empty() },
        ),
{
    if text::trimmed(text).len() > 0 {
        law_text_is_its_own_deconjugation(rules, text);
    }
}

/// Forms with the same contents have the same text, history and tags.
pub proof fn law_forms_are_told_by_their_parts(a: Form, b: Form)
    requires
        a@ == b@,
    ensures
        a.text@ == b.text@,
        a.process@.len() == b.process@.len() && a.tags@.len() == b.tags@.len(),
        forall|i: int| 0 <= i < a.process@.len() ==> (#[trigger] a.process@[i])@ == b.process@[i]@,
        forall|i: int| 0 <= i < a.tags@.len() ==> (#[trigger] a.tags@[i])@ == b.tags@[i]@,
{
    assert(text::texts(a.process@).len() == text::texts(b.process@).len());
    assert(text::texts(a.tags@).len() == text::texts(b.tags@).len());
    assert forall|i: int| 0 <= i < a.process@.len() implies (#[trigger] a.process@[i])@
        == b.process@[i]@ by {
        assert(text::texts(a.process@)[i] == text::texts(b.process@)[i]);
    }
    assert forall|i: int| 0 <= i < a.tags@.len() implies (#[trigger] a.tags@[i])@
        == b.tags@[i]@ by {
        assert(text::texts(a.tags@)[i] == text::texts(b.tags@)[i]);
    }
}

} // verus!
