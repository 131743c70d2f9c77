//! Values captured from responses, and their substitution into later steps.
use vstd::prelude::*;
use crate::json::{field_of, json_text, Json};
use crate::model::{Capture, RunError, Step};
use crate::text::{replace_all, replaced, same_text, strip_quotes, unquoted};

verus! {

/// One captured value, kept as the JSON text of the response field it came from.
pub struct Variable {
    pub name: String,
    pub value: String,
}

/// The variables captured so far in one test case, each name once, in order of first capture.
pub struct VariableStore {
    pub vars: Vec<Variable>,
}

/// Whether `name` is among the names of `vars`.
pub open spec fn has_name(vars: Seq<(Seq<char>, Seq<char>)>, name: Seq<char>) -> bool {
    exists|i: int| 0 <= i < vars.len() && vars[i].0 == name
}

/// `vars` with `name` set to `value`: in place when the name is there, else added at the end.
pub open spec fn upserted(
    vars: Seq<(Seq<char>, Seq<char>)>,
    name: Seq<char>,
    value: Seq<char>,
) -> Seq<(Seq<char>, Seq<char>)> {
    if has_name(vars, name) {
        let i = choose|i: int| 0 <= i < vars.len() && vars[i].0 == name;
        vars.update(i, (name, value))
    } else {
        vars.push((name, value))
    }
}

/// The store after capturing, in order, each of `caps` from `response`.
pub open spec fn captured(
    vars: Seq<(Seq<char>, Seq<char>)>,
    caps: Seq<Capture>,
    response: Json,
) -> Seq<(Seq<char>, Seq<char>)>
    decreases caps.len(),
{
    if caps.len() == 0 {
        vars
    } else {
        let last = caps.last();
        upserted(
            captured(vars, caps.drop_last(), response),
            last.variable@,
            json_text(field_of(response, last.field@)),
        )
    }
}

/// Text `e` after every variable of `vars`, in order, has had each occurrence of its name
/// replaced by its value without quote characters.
pub open spec fn endpoint_after(e: Seq<char>, vars: Seq<(Seq<char>, Seq<char>)>) -> Seq<char>
    decreases vars.len(),
{
    if vars.len() == 0 {
        e
    } else {
        replaced(endpoint_after(e, vars.drop_last()), vars.last().0, unquoted(vars.last().1))
    }
}

/// A request string value after the variables of `vars`, in order: a value equal to a
/// variable's name becomes that variable's value without quote characters.
pub open spec fn value_after(s: Seq<char>, vars: Seq<(Seq<char>, Seq<char>)>) -> Seq<char>
    decreases vars.len(),
{
    if vars.len() == 0 {
        s
    } else {
        let p = value_after(s, vars.drop_last());
        if p == vars.last().0 {
            unquoted(vars.last().1)
        } else {
            p
        }
    }
}

/// How one member value of a request reads after substitution: a string per `value_after`,
/// anything else as it was.
pub open spec fn member_after(old: Json, new: Json, vars: Seq<(Seq<char>, Seq<char>)>) -> bool {
    match old {
        Json::Str(s) => new is Str && new->Str_0@ == value_after(s@, vars),
        _ => new == old,
    }
}

/// `new` is step `old` with the variables of `vars` substituted into its endpoint and into
/// the top-level values of its request object.
pub open spec fn substituted(old: Step, new: Step, vars: Seq<(Seq<char>, Seq<char>)>) -> bool {
    &&& new.endpoint@ == endpoint_after(old.endpoint@, vars)
    &&& new.method == old.method
    &&& new.expected_response == old.expected_response
    &&& new.captures == old.captures
    &&& old.request is Object
    &&& new.request is Object
    &&& new.request->Object_0@.len() == old.request->Object_0@.len()
    &&& forall|k: int|
        0 <= k < old.request->Object_0@.len() ==> {
            &&& #[trigger] new.request->Object_0@[k].0 == old.request->Object_0@[k].0
            &&& member_after(old.request->Object_0@[k].1, new.request->Object_0@[k].1, vars)
        }
}

impl View for VariableStore {
    type V = Seq<(Seq<char>, Seq<char>)>;

    open spec fn view(&self) -> Seq<(Seq<char>, Seq<char>)> {
        self.vars@.map_values(|v: Variable| (v.name@, v.value@))
    }
}

impl VariableStore {
    /// Each name appears once.
    pub open spec fn wf(&self) -> bool {
        forall|i: int, j: int|
            0 <= i < j < self@.len() ==> #[trigger] self@[i].0 != #[trigger] self@[j].0
    }

    /// An empty store.
    pub fn new() -> (r: VariableStore)
        ensures
            r.wf(),
            r@ == Seq::<(Seq<char>, Seq<char>)>::empty(),
    {
        let r = VariableStore { vars: Vec::new() };
        assert(r@ =~= Seq::<(Seq<char>, Seq<char>)>::empty());
        r
    }

    /// Sets `name` to `value`, overwriting an earlier value of the same name.
    pub fn insert(&mut self, name: String, value: String)
        requires
            old(self).wf(),
        ensures
            final(self).wf(),
            final(self)@ == upserted(old(self)@, name@, value@),
    {
        let mut i: usize = 0;
        while i < self.vars.len()
            invariant
                i <= self.vars.len(),
                self.wf(),
                self@ == old(self)@,
                forall|j: int| 0 <= j < i ==> self@[j].0 != name@,
            decreases self.vars.len() - i,
        {
            if same_text(self.vars[i].name.as_str(), name.as_str()) {
                let ghost before = self@;
                assert(before[i as int].0 == name@);
                assert(has_name(before, name@));
                let ghost idx = choose|k: int| 0 <= k < before.len() && before[k].0 == name@;
                assert(idx == i) by {
                    if idx < i {
                        assert(before[idx].0 != name@);
                    } else if idx > i {
                        assert(before[i as int].0 != before[idx].0);
                    }
                }
                self.vars.set(i, Variable { name, value });
                assert(self@ =~= before.update(i as int, (name@, value@)));
                return;
            }
            i = i + 1;
        }
        let ghost before = self@;
        self.vars.push(Variable { name, value });
        assert(self@ =~= before.push((name@, value@)));
    }

    /// Captures, in order, each field of `caps` from `response`, as its JSON text.
    pub fn capture(&mut self, caps: &Vec<Capture>, response: &Json)
        requires
            old(self).wf(),
        ensures
            final(self).wf(),
            final(self)@ == captured(old(self)@, caps@, *response),
    {
        let mut i: usize = 0;
        while i < caps.len()
            invariant
                i <= caps.len(),
                self.wf(),
                self@ == captured(old(self)@, caps@.subrange(0, i as int), *response),
            decreases caps.len() - i,
        {
            let text = response.field_text(caps[i].field.as_str());
            let name = caps[i].variable.clone();
            self.insert(name, text);
            assert(caps@.subrange(0, i + 1).drop_last() =~= caps@.subrange(0, i as int));
            i = i + 1;
        }
        assert(caps@.subrange(0, caps.len() as int) =~= caps@);
    }

    /// The value that the variables give a request string value `s`.
    fn value_for(&self, s: String) -> (r: String)
        ensures
            r@ == value_after(s@, self@),
    {
        let mut cur = s;
        let mut i: usize = 0;
        while i < self.vars.len()
            invariant
                i <= self.vars.len(),
                cur@ == value_after(s@, self@.subrange(0, i as int)),
            decreases self.vars.len() - i,
        {
            if same_text(cur.as_str(), self.vars[i].name.as_str()) {
                cur = strip_quotes(self.vars[i].value.as_str());
            }
            assert(self@.subrange(0, i + 1).drop_last() =~= self@.subrange(0, i as int));
            i = i + 1;
        }
        assert(self@.subrange(0, self.vars.len() as int) =~= self@);
        cur
    }

    /// Endpoint `e` with each variable's name replaced by its value without quote characters.
    pub fn substitute_endpoint(&self, e: &str) -> (r: String)
        ensures
            r@ == endpoint_after(e@, self@),
    {
        let mut cur = String::from_str(e);
        let mut i: usize = 0;
        assert(self@.subrange(0, 0) =~= Seq::<(Seq<char>, Seq<char>)>::empty());
        while i < self.vars.len()
            invariant
                i <= self.vars.len(),
                cur@ == endpoint_after(e@, self@.subrange(0, i as int)),
            decreases self.vars.len() - i,
        {
            let value = strip_quotes(self.vars[i].value.as_str());
            cur = replace_all(cur.as_str(), self.vars[i].name.as_str(), value.as_str());
            assert(self@.subrange(0, i + 1).drop_last() =~= self@.subrange(0, i as int));
            i = i + 1;
        }
        assert(self@.subrange(0, self.vars.len() as int) =~= self@);
        cur
    }

    /// Substitutes the variables into the endpoint and into the top-level request values of
    /// `step`, whose request must be a JSON object. With no variables the step is returned as
    /// it is.
    pub fn substitute(&self, step: Step) -> (r: Result<Step, RunError>)
        ensures
            !(step.request is Object) ==> r == Err::<Step, RunError>(RunError::MalformedRequest),
            self@.len() == 0 && step.request is Object ==> r == Ok::<Step, RunError>(step),
            self@.len() > 0 && step.request is Object ==> r is Ok && substituted(
                step,
                r->Ok_0,
                self@,
            ),
    {
        let Step { endpoint, method, request, expected_response, captures } = step;
        let mut members = match request {
            Json::Object(m) => m,
            _ => {
                return Err(RunError::MalformedRequest);
            },
        };
        if self.vars.len() == 0 {
            return Ok(Step { endpoint, method, request: Json::Object(members), expected_response, captures });
        }
        let ghost orig = members@;
        let new_endpoint = self.substitute_endpoint(endpoint.as_str());
        let mut out: Vec<(String, Json)> = Vec::new();
        while members.len() > 0
            invariant
                out@.len() + members@.len() == orig.len(),
                members@ == orig.subrange(out@.len() as int, orig.len() as int),
                forall|k: int|
                    0 <= k < out@.len() ==> {
                        &&& #[trigger] out@[k].0 == orig[k].0
                        &&& member_after(orig[k].1, out@[k].1, self@)
                    },
            decreases members.len(),
        {
            let ghost k = out@.len() as int;
            let (key, value) = members.remove(0);
            assert(key == orig[k].0 && value == orig[k].1);
            let new_value = match value {
                Json::Str(s) => Json::Str(self.value_for(s)),
                other => other,
            };
            out.push((key, new_value));
            assert(members@ =~= orig.subrange(out@.len() as int, orig.len() as int));
        }
        let r = Step {
            endpoint: new_endpoint,
            method,
            request: Json::Object(out),
            expected_response,
            captures,
        };
        Ok(r)
    }
}

/// With no variables, substitution changes neither an endpoint nor a request value.
pub proof fn lemma_empty_store_changes_nothing(e: Seq<char>, s: Seq<char>)
    ensures
        endpoint_after(e, Seq::empty()) == e,
        value_after(s, Seq::empty()) == s,
{
}

/// A variable newly captured from a response replaces, in a later endpoint, every occurrence
/// of its name by the captured field's JSON text without quote characters, once the variables
/// captured before it have been applied (with none before it, in the endpoint as written).
pub proof fn lemma_capture_then_use(
    vars: Seq<(Seq<char>, Seq<char>)>,
    cap: Capture,
    response: Json,
    endpoint: Seq<char>,
)
    requires
        !has_name(vars, cap.variable@),
    ensures
        endpoint_after(endpoint, captured(vars, seq![cap], response)) == replaced(
            endpoint_after(endpoint, vars),
            cap.variable@,
            unquoted(json_text(field_of(response, cap.field@))),
        ),
        vars.len() == 0 ==> endpoint_after(endpoint, captured(vars, seq![cap], response))
            == replaced(endpoint, cap.variable@, unquoted(json_text(field_of(response, cap.field@)))),
{
    let caps = seq![cap];
    assert(caps.drop_last() =~= Seq::<Capture>::empty());
    assert(caps.last() == cap);
    assert(captured(vars, caps.drop_last(), response) == vars);
    let after = vars.push((cap.variable@, json_text(field_of(response, cap.field@))));
    assert(captured(vars, caps, response) == after);
    assert(after.drop_last() =~= vars);
}

/// Applying the variables `a` and then `b` is applying `a + b`.
pub proof fn lemma_endpoint_after_concat(
    e: Seq<char>,
    a: Seq<(Seq<char>, Seq<char>)>,
    b: Seq<(Seq<char>, Seq<char>)>,
)
    ensures
        endpoint_after(e, a + b) == endpoint_after(endpoint_after(e, a), b),
    decreases b.len(),
{
    if b.len() == 0 {
        assert(a + b =~= a);
    } else {
        lemma_endpoint_after_concat(e, a, b.drop_last());
        assert((a + b).drop_last() =~= a + b.drop_last());
        assert((a + b).last() == b.last());
    }
}

/// A variable captured again from a response keeps its place among the variables: in a later
/// endpoint, after the variables captured before it have been applied, every occurrence of its
/// name is replaced by the newly captured field's JSON text without quote characters, and the
/// variables after it are applied to that.
pub proof fn lemma_recapture_then_use(
    vars: Seq<(Seq<char>, Seq<char>)>,
    i: int,
    cap: Capture,
    response: Json,
    endpoint: Seq<char>,
)
    requires
        0 <= i < vars.len(),
        vars[i].0 == cap.variable@,
        forall|j: int, k: int| 0 <= j < k < vars.len() ==> #[trigger] vars[j].0 != #[trigger] vars[k].0,
    ensures
        endpoint_after(endpoint, captured(vars, seq![cap], response)) == endpoint_after(
            replaced(
                endpoint_after(endpoint, vars.subrange(0, i)),
                cap.variable@,
                unquoted(json_text(field_of(response, cap.field@))),
            ),
            vars.subrange(i + 1, vars.len() as int),
        ),
{
    let caps = seq![cap];
    let x = (cap.variable@, json_text(field_of(response, cap.field@)));
    assert(caps.drop_last() =~= Seq::<Capture>::empty());
    assert(caps.last() == cap);
    assert(captured(vars, caps.drop_last(), response) == vars);
    assert(has_name(vars, cap.variable@));
    let idx = choose|k: int| 0 <= k < vars.len() && vars[k].0 == cap.variable@;
    assert(idx == i) by {
        if idx < i {
            assert(vars[idx].0 != vars[i].0);
        } else if idx > i {
            assert(vars[i].0 != vars[idx].0);
        }
    }
    let upd = vars.update(i, x);
    assert(captured(vars, caps, response) == upd);
    let pre = vars.subrange(0, i);
    let post = vars.subrange(i + 1, vars.len() as int);
    assert(upd =~= (pre + seq![x]) + post);
    lemma_endpoint_after_concat(endpoint, pre + seq![x], post);
    lemma_endpoint_after_concat(endpoint, pre, seq![x]);
    let one = seq![x];
    assert(one.drop_last() =~= Seq::<(Seq<char>, Seq<char>)>::empty());
    assert(endpoint_after(endpoint_after(endpoint, pre), one.drop_last()) == endpoint_after(endpoint, pre));
}

} // verus!
