//! The runtime's global namespace: filled during a mutable setup
//! phase, then sealed read-only, so script code can never redefine
//! the module system's own surface.

use vstd::prelude::*;

use crate::clone_string;
use crate::ScriptValue;

verus! {

/// Mathematical state of one global binding.
pub ghost struct BindingModel {
    pub name: Seq<char>,
    pub value: ScriptValue,
}

/// Whether a binding list holds this name.
pub open spec fn has_binding(m: Seq<BindingModel>, n: Seq<char>) -> bool {
    exists|i: int| 0 <= i < m.len() && (#[trigger] m[i]).name == n
}

/// The index of the binding holding this name.
pub open spec fn binding_index(m: Seq<BindingModel>, n: Seq<char>) -> int {
    choose|i: int| 0 <= i < m.len() && (#[trigger] m[i]).name == n
}

/// The global namespace: name-to-value bindings plus the seal flag.
/// Once sealed, every write is rejected; nothing ever unseals it.
pub struct GlobalNamespace {
    pub entries: Vec<(String, ScriptValue)>,
    pub sealed: bool,
}

impl GlobalNamespace {
    /// The mathematical state of the bindings.
    pub open spec fn model(self) -> Seq<BindingModel> {
        self.entries@.map_values(|e: (String, ScriptValue)| BindingModel { name: e.0@, value: e.1 })
    }

    /// Binding names are pairwise distinct.
    pub open spec fn wf(self) -> bool {
        forall|i: int, j: int|
            0 <= i < j < self.model().len() ==> (#[trigger] self.model()[i]).name
                != (#[trigger] self.model()[j]).name
    }

    /// An empty, still-mutable namespace.
    pub fn new() -> (g: GlobalNamespace)
        ensures
            g.wf(),
            !g.sealed,
            g.model() =~= Seq::<BindingModel>::empty(),
    {
        GlobalNamespace { entries: Vec::new(), sealed: false }
    }

    /// The index of the binding for `name`, if any.
    fn find(&self, name: &String) -> (r: Option<usize>)
        requires
            self.wf(),
        ensures
            match r {
                None => !has_binding(self.model(), name@),
                Some(i) => i < self.entries@.len() && self.model()[i as int].name == name@
                    && binding_index(self.model(), name@) == i && has_binding(self.model(), name@),
            },
    {
        let n = self.entries.len();
        let mut j: usize = 0;
        while j < n
            invariant
                self.wf(),
                n == self.entries@.len(),
                j <= n,
                forall|t: int| 0 <= t < j ==> (#[trigger] self.model()[t]).name != name@,
            decreases n - j,
        {
            if self.entries[j].0 == *name {
                proof {
                    let m = self.model();
                    assert(m[j as int].name == name@);
                    let i = binding_index(m, name@);
                    if i < j as int {
                        assert(m[i].name != m[j as int].name);
                    }
                    if i > j as int {
                        assert(m[j as int].name != m[i].name);
                    }
                }
                return Some(j);
            }
            proof {
                assert(self.model()[j as int].name == self.entries@[j as int].0@);
            }
            j = j + 1;
        }
        None
    }

    /// Defines or redefines a global.  During setup the binding is
    /// written; after the namespace is sealed the write is rejected
    /// and nothing changes — the two-phase initialization that keeps
    /// the runtime surface out of script code's reach.
    pub fn set(&mut self, name: &String, value: ScriptValue) -> (r: bool)
        requires
            old(self).wf(),
        ensures
            final(self).wf(),
            final(self).sealed == old(self).sealed,
            old(self).sealed ==> !r && *final(self) == *old(self),
            !old(self).sealed ==> r && (if has_binding(old(self).model(), name@) {
                final(self).model() == old(self).model().update(
                    binding_index(old(self).model(), name@),
                    BindingModel { name: name@, value },
                )
            } else {
                final(self).model() == old(self).model().push(BindingModel { name: name@, value })
            }),
    {
        if self.sealed {
            return false;
        }
        let found = self.find(name);
        let ghost m0 = self.model();
        match found {
            Some(i) => {
                self.entries[i] = (clone_string(name), value);
                proof {
                    assert(self.model() =~~= m0.update(
                        binding_index(m0, name@),
                        BindingModel { name: name@, value },
                    ));
                    assert forall|a: int, b: int| 0 <= a < b < self.model().len() implies (
                    #[trigger] self.model()[a]).name != (#[trigger] self.model()[b]).name by {
                        assert(m0[a].name != m0[b].name);
                    }
                }
            },
            None => {
                self.entries.push((clone_string(name), value));
                proof {
                    assert(self.model() =~~= m0.push(BindingModel { name: name@, value }));
                    assert forall|a: int, b: int| 0 <= a < b < self.model().len() implies (
                    #[trigger] self.model()[a]).name != (#[trigger] self.model()[b]).name by {
                        if b == self.model().len() - 1 {
                            assert(!has_binding(m0, name@));
                            assert(m0[a].name != name@);
                        } else {
                            assert(m0[a].name != m0[b].name);
                        }
                    }
                }
            },
        }
        true
    }

    /// Seals the namespace read-only.  Bindings are kept as they are;
    /// from here on every `set` is rejected.
    pub fn seal(&mut self)
        requires
            old(self).wf(),
        ensures
            final(self).wf(),
            final(self).sealed,
            final(self).model() == old(self).model(),
    {
        self.sealed = true;
    }

    /// The value bound to a global, if any.
    pub fn get(&self, name: &String) -> (r: Option<ScriptValue>)
        requires
            self.wf(),
        ensures
            match r {
                None => !has_binding(self.model(), name@),
                Some(v) => has_binding(self.model(), name@) && v == self.model()[binding_index(
                    self.model(),
                    name@,
                )].value,
            },
    {
        match self.find(name) {
            Some(i) => Some(self.entries[i].1.dup()),
            None => None,
        }
    }
}

/// Whether this builtin is also exposed as a plain global (a
/// temporary measure for editor tooling, as the host's builtin list
/// says).
pub fn builtin_exposed_as_global(name: &String) -> (r: bool)
    ensures
        r == (name@ == "fs"@ || name@ == "net"@ || name@ == "process"@ || name@ == "stdio"@
            || name@ == "task"@),
{
    *name == String::from_str("fs") || *name == String::from_str("net") || *name
        == String::from_str("process") || *name == String::from_str("stdio") || *name
        == String::from_str("task")
}

} // verus!
