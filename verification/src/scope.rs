//! The environment stack: activation records with dynamically scoped lookup.

use vstd::prelude::*;

use crate::ast::Internal;
use crate::value::Value;
use crate::value::ValView;
use crate::value::cap_view;
use crate::value::copy_value;
use crate::value::lemma_cap_view;
use crate::value::val_view;

verus! {

broadcast use vstd::string::group_string_axioms;

/// The abstraction of one activation record: variable bindings and command
/// registrations, each an association sequence whose later entries take
/// precedence.
pub ghost struct FrameView {
    pub vars: Seq<(Seq<char>, ValView)>,
    pub cmds: Seq<(Seq<char>, Internal)>,
}

impl FrameView {
    /// A record with no bindings.
    pub open spec fn empty() -> FrameView {
        FrameView { vars: Seq::empty(), cmds: Seq::empty() }
    }
}

/// The latest binding for `name` in an association sequence, scanning from
/// the most recently added entry backwards.
pub open spec fn lookup<V>(entries: Seq<(Seq<char>, V)>, name: Seq<char>) -> Option<V>
    decreases entries,
{
    if entries.len() == 0 {
        None
    } else if entries.last().0 == name {
        Some(entries.last().1)
    } else {
        lookup(entries.drop_last(), name)
    }
}

/// Variable lookup over the whole stack, innermost record first.
pub open spec fn scope_var(frames: Seq<FrameView>, name: Seq<char>) -> Option<ValView>
    decreases frames,
{
    if frames.len() == 0 {
        None
    } else {
        match lookup(frames.last().vars, name) {
            Some(v) => Some(v),
            None => scope_var(frames.drop_last(), name),
        }
    }
}

/// Command lookup over the whole stack, innermost record first.
pub open spec fn scope_cmd(frames: Seq<FrameView>, name: Seq<char>) -> Option<Internal>
    decreases frames,
{
    if frames.len() == 0 {
        None
    } else {
        match lookup(frames.last().cmds, name) {
            Some(c) => Some(c),
            None => scope_cmd(frames.drop_last(), name),
        }
    }
}

/// The stack after binding `name` to `v` in the innermost record.
pub open spec fn bind_var(frames: Seq<FrameView>, name: Seq<char>, v: ValView) -> Seq<
    FrameView,
>
    recommends
        frames.len() >= 1,
{
    frames.update(
        frames.len() - 1,
        FrameView { vars: frames.last().vars.push((name, v)), cmds: frames.last().cmds },
    )
}

/// The stack after registering command `name` in the innermost record.
pub open spec fn bind_cmd(frames: Seq<FrameView>, name: Seq<char>, c: Internal) -> Seq<
    FrameView,
>
    recommends
        frames.len() >= 1,
{
    frames.update(
        frames.len() - 1,
        FrameView { vars: frames.last().vars, cmds: frames.last().cmds.push((name, c)) },
    )
}

/// The stack after leaving a record: the innermost record is popped, except
/// that the root record always stays.
pub open spec fn exit_frame(frames: Seq<FrameView>) -> Seq<FrameView> {
    if frames.len() > 1 {
        frames.drop_last()
    } else {
        frames
    }
}

/// The view of a command-registration vector.
pub open spec fn cmds_view(s: Seq<(String, Internal)>) -> Seq<(Seq<char>, Internal)> {
    s.map_values(|p: (String, Internal)| (p.0@, p.1))
}

/// One activation record: a mapping from variable name to value and from
/// command name to built-in identifier, each held as an insertion-ordered
/// vector whose later entries shadow earlier ones.
pub struct ScopeRecord {
    variables: Vec<(String, Value)>,
    commands: Vec<(String, Internal)>,
}

impl View for ScopeRecord {
    type V = FrameView;

    closed spec fn view(&self) -> FrameView {
        FrameView { vars: cap_view(self.variables@), cmds: cmds_view(self.commands@) }
    }
}

impl ScopeRecord {
    /// A record with no bindings.
    pub fn new() -> (r: Self)
        ensures
            r@ == FrameView::empty(),
    {
        let r = Self { variables: Vec::new(), commands: Vec::new() };
        proof {
            assert(r@.vars =~= FrameView::empty().vars);
            assert(r@.cmds =~= FrameView::empty().cmds);
        }
        r
    }
}

/// The environment stack.  It always holds at least one record, the root;
/// `exit_record` never pops the root.
pub struct Scope {
    records: Vec<ScopeRecord>,
}

impl View for Scope {
    type V = Seq<FrameView>;

    closed spec fn view(&self) -> Seq<FrameView> {
        Seq::new(self.records@.len(), |i: int| self.records@[i]@)
    }
}

impl Scope {
    /// The stack invariant: the root record is always present.
    pub open spec fn wf(&self) -> bool {
        self@.len() >= 1
    }

    /// A stack holding only an empty root record.
    pub fn new() -> (s: Self)
        ensures
            s.wf(),
            s@ == seq![FrameView::empty()],
    {
        let mut records: Vec<ScopeRecord> = Vec::new();
        records.push(ScopeRecord::new());
        let s = Self { records };
        proof {
            assert(s@ =~= seq![FrameView::empty()]);
        }
        s
    }

    /// The value bound to `name` in the innermost record that binds it, as a
    /// copy; `None` if no active record binds it.
    #[verifier::loop_isolation(false)]
    pub fn get_variable(&self, name: &str) -> (r: Option<Value>)
        ensures
            match r {
                Some(v) => scope_var(self@, name@) == Some(val_view(v)),
                None => scope_var(self@, name@) is None,
            },
    {
        let key: String = name.to_string();
        let mut i: usize = self.records.len();
        proof {
            assert(self@.take(self.records@.len() as int) =~= self@);
        }
        while i > 0
            invariant
                i <= self.records@.len(),
                key@ == name@,
                self@.len() == self.records@.len(),
                forall|k: int| 0 <= k < self.records@.len() ==> self@[k] == self.records@[k]@,
                scope_var(self@, name@) == scope_var(self@.take(i as int), name@),
            decreases i,
        {
            i -= 1;
            let rec = &self.records[i];
            let ghost vview = cap_view(rec.variables@);
            proof {
                lemma_cap_view(rec.variables@);
                assert(vview.take(rec.variables@.len() as int) =~= vview);
            }
            let mut j: usize = rec.variables.len();
            while j > 0
                invariant
                    j <= rec.variables@.len(),
                    key@ == name@,
                    vview == cap_view(rec.variables@),
                    vview.len() == rec.variables@.len(),
                    forall|k: int|
                        0 <= k < rec.variables@.len() ==> vview[k] == (
                            rec.variables@[k].0@,
                            val_view(rec.variables@[k].1),
                        ),
                    lookup(vview, name@) == lookup(vview.take(j as int), name@),
                decreases j,
            {
                j -= 1;
                proof {
                    assert(vview.take(j as int + 1).drop_last() =~= vview.take(j as int));
                    assert(vview.take(j as int + 1).last() == vview[j as int]);
                }
                if rec.variables[j].0 == key {
                    let out = copy_value(&rec.variables[j].1);
                    proof {
                        assert(lookup(vview, name@) == Some(val_view(rec.variables@[j as int].1)));
                        assert(self@.take(i as int + 1).last() == self@[i as int]);
                        assert(self@[i as int].vars == vview);
                    }
                    return Some(out);
                }
            }
            proof {
                assert(vview.take(0) =~= Seq::<(Seq<char>, ValView)>::empty());
                assert(lookup(self@[i as int].vars, name@) is None);
                assert(self@.take(i as int + 1).last() == self@[i as int]);
                assert(self@.take(i as int + 1).drop_last() =~= self@.take(i as int));
            }
        }
        proof {
            assert(self@.take(0) =~= Seq::<FrameView>::empty());
        }
        None
    }

    /// The built-in registered under `name` in the innermost record that
    /// registers one; `None` if no active record does.
    #[verifier::loop_isolation(false)]
    pub fn get_command(&self, name: &str) -> (r: Option<Internal>)
        ensures
            r == scope_cmd(self@, name@),
    {
        let key: String = name.to_string();
        let mut i: usize = self.records.len();
        proof {
            assert(self@.take(self.records@.len() as int) =~= self@);
        }
        while i > 0
            invariant
                i <= self.records@.len(),
                key@ == name@,
                self@.len() == self.records@.len(),
                forall|k: int| 0 <= k < self.records@.len() ==> self@[k] == self.records@[k]@,
                scope_cmd(self@, name@) == scope_cmd(self@.take(i as int), name@),
            decreases i,
        {
            i -= 1;
            let rec = &self.records[i];
            let ghost cview = cmds_view(rec.commands@);
            proof {
                assert(cview.take(rec.commands@.len() as int) =~= cview);
            }
            let mut j: usize = rec.commands.len();
            while j > 0
                invariant
                    j <= rec.commands@.len(),
                    key@ == name@,
                    cview == cmds_view(rec.commands@),
                    cview.len() == rec.commands@.len(),
                    forall|k: int|
                        0 <= k < rec.commands@.len() ==> cview[k] == (
                            rec.commands@[k].0@,
                            rec.commands@[k].1,
                        ),
                    lookup(cview, name@) == lookup(cview.take(j as int), name@),
                decreases j,
            {
                j -= 1;
                proof {
                    assert(cview.take(j as int + 1).drop_last() =~= cview.take(j as int));
                    assert(cview.take(j as int + 1).last() == cview[j as int]);
                }
                if rec.commands[j].0 == key {
                    let out = rec.commands[j].1;
                    proof {
                        assert(lookup(cview, name@) == Some(out));
                        assert(self@.take(i as int + 1).last() == self@[i as int]);
                        assert(self@[i as int].cmds == cview);
                    }
                    return Some(out);
                }
            }
            proof {
                assert(cview.take(0) =~= Seq::<(Seq<char>, Internal)>::empty());
                assert(lookup(self@[i as int].cmds, name@) is None);
                assert(self@.take(i as int + 1).last() == self@[i as int]);
                assert(self@.take(i as int + 1).drop_last() =~= self@.take(i as int));
            }
        }
        proof {
            assert(self@.take(0) =~= Seq::<FrameView>::empty());
        }
        None
    }

    /// Binds `name` to `value` in the innermost record, shadowing any older
    /// binding of the same name.
    pub fn add_variable(&mut self, name: &str, value: Value)
        requires
            old(self).wf(),
        ensures
            final(self).wf(),
            final(self)@ == bind_var(old(self)@, name@, val_view(value)),
    {
        let ghost old_view = self@;
        let mut rec = self.records.pop().unwrap();
        let ghost old_vars = rec.variables@;
        rec.variables.push((name.to_string(), value));
        proof {
            assert(rec.variables@.drop_last() =~= old_vars);
            assert(cap_view(rec.variables@) =~= cap_view(old_vars).push(
                (name@, val_view(value)),
            ));
        }
        self.records.push(rec);
        proof {
            assert(self@ =~= bind_var(old_view, name@, val_view(value)));
        }
    }

    /// Registers built-in `internal` under `name` in the innermost record.
    pub fn add_command(&mut self, name: &str, internal: Internal)
        requires
            old(self).wf(),
        ensures
            final(self).wf(),
            final(self)@ == bind_cmd(old(self)@, name@, internal),
    {
        let ghost old_view = self@;
        let mut rec = self.records.pop().unwrap();
        let ghost old_cmds = rec.commands@;
        rec.commands.push((name.to_string(), internal));
        proof {
            assert(rec.commands@.drop_last() =~= old_cmds);
            assert(cmds_view(rec.commands@) =~= cmds_view(old_cmds).push((name@, internal)));
        }
        self.records.push(rec);
        proof {
            assert(self@ =~= bind_cmd(old_view, name@, internal));
        }
    }

    /// Pushes a fresh, empty activation record.
    pub fn enter_record(&mut self)
        ensures
            final(self).wf(),
            final(self)@ == old(self)@.push(FrameView::empty()),
    {
        self.records.push(ScopeRecord::new());
        proof {
            assert(self@ =~= old(self)@.push(FrameView::empty()));
        }
    }

    /// Pops the innermost activation record; keeps the root, so a pop on the
    /// root alone is a no-op.
    pub fn exit_record(&mut self)
        requires
            old(self).wf(),
        ensures
            final(self).wf(),
            final(self)@ == exit_frame(old(self)@),
    {
        if self.records.len() > 1 {
            let ghost old_view = self@;
            let _ = self.records.pop();
            proof {
                assert(self@ =~= old_view.drop_last());
            }
        }
    }
}

} // verus!
