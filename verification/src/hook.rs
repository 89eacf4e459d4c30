//! The hook-installation protocol: a state machine that resolves a target
//! name to an address, records the trampoline decision under an ABI tag, and
//! enables the interception — together with the registry that admits exactly
//! one enabled hook per target address. The memory patch itself is performed
//! by the embedding application between the decisions recorded here.

use vstd::prelude::*;
use crate::convention::CallingConvention;
use crate::database::SymbolDatabase;

verus! {

/// Why a hook installation failed. A failure is terminal for that one hook
/// and isolated from every sibling installation.
#[derive(Clone, Copy, PartialEq, Eq, Structural, Debug)]
pub enum HookFailure {
    /// The target name is absent from the symbol database.
    SymbolNotFound,
    /// No calling convention could be determined for the target.
    ConventionUnknown,
    /// The target address already carries an enabled hook.
    DuplicateAddress,
}

/// The installation state of one hook. Transitions run strictly forward
/// except into `Failed`, which is terminal.
#[derive(Clone, Copy, PartialEq, Eq, Structural, Debug)]
pub enum HookState {
    /// No address is known yet for the target name.
    Unresolved,
    /// The target name resolved to this absolute address.
    AddressResolved(u64),
    /// The address was reinterpreted as a callable under this ABI tag.
    TrampolineBuilt(u64, CallingConvention),
    /// The interception at this address is live for the process lifetime.
    Enabled(u64),
    /// The installation failed and this hook will never be enabled.
    Failed(HookFailure),
}

/// A state is terminal when no further transition may leave it.
pub open spec fn is_terminal(s: HookState) -> bool {
    s is Enabled || s is Failed
}

/// The registry of enabled hooks: the addresses that already carry a live
/// interception. The embedding application serializes access to it, so that
/// two installations racing on one address cannot both pass the duplicate
/// check.
pub struct HookRegistry {
    enabled: Vec<u64>,
}

impl HookRegistry {
    /// The addresses carrying an enabled hook.
    pub closed spec fn addresses(&self) -> Seq<u64> {
        self.enabled@
    }

    /// A fresh registry with no enabled hook.
    pub fn new() -> (r: HookRegistry)
        ensures
            r.addresses() == Seq::<u64>::empty(),
    {
        HookRegistry { enabled: Vec::new() }
    }

    /// True when the address already carries an enabled hook.
    pub fn is_enabled(&self, address: u64) -> (r: bool)
        ensures
            r == self.addresses().contains(address),
    {
        let mut i: usize = 0;
        while i < self.enabled.len()
            invariant
                i <= self.enabled.len(),
                forall|j: int| 0 <= j < i ==> self.enabled@[j] != address,
            decreases self.enabled.len() - i,
        {
            if self.enabled[i] == address {
                return true;
            }
            i += 1;
        }
        false
    }
}

/// One hook under installation: the source-level target name and how far the
/// protocol has come.
pub struct Hook {
    pub target: String,
    pub state: HookState,
}

impl Hook {
    /// A fresh, unresolved hook for the named target.
    pub fn new(target: String) -> (r: Hook)
        ensures
            r.target@ == target@,
            r.state == HookState::Unresolved,
    {
        Hook { target, state: HookState::Unresolved }
    }

    /// Looks the target name up in the symbol database: absence fails this
    /// hook alone with `SymbolNotFound`, presence advances it to the
    /// resolved address.
    pub fn resolve_address(&mut self, db: &SymbolDatabase)
        requires
            old(self).state == HookState::Unresolved,
        ensures
            final(self).target@ == old(self).target@,
            final(self).state == (match db.spec_resolve(old(self).target@) {
                Some(a) => HookState::AddressResolved(a),
                None => HookState::Failed(HookFailure::SymbolNotFound),
            }),
    {
        match db.get_function_address(self.target.as_str()) {
            Some(a) => {
                self.state = HookState::AddressResolved(a);
            },
            None => {
                self.state = HookState::Failed(HookFailure::SymbolNotFound);
            },
        }
    }

    /// Records that the resolved address is to be reinterpreted as a
    /// callable of the caller's statically declared signature under the
    /// given ABI tag. The caller guarantees the signature matches the
    /// compiled function; the reinterpretation itself is the embedding
    /// application's unsafe step.
    pub fn build_trampoline(&mut self, convention: CallingConvention)
        requires
            old(self).state is AddressResolved,
        ensures
            final(self).target@ == old(self).target@,
            final(self).state == (match old(self).state {
                HookState::AddressResolved(a) => HookState::TrampolineBuilt(a, convention),
                _ => old(self).state,
            }),
    {
        match self.state {
            HookState::AddressResolved(a) => {
                self.state = HookState::TrampolineBuilt(a, convention);
            },
            _ => {},
        }
    }

    /// Enables the interception. An address that already carries an enabled
    /// hook rejects the second attempt — this hook fails with
    /// `DuplicateAddress`, and the registry, hence the existing hook, is
    /// left untouched. Otherwise the address joins the registry and the
    /// hook is enabled for the process lifetime. See
    /// `lemma_enable_keeps_addresses_distinct` for the registry invariant
    /// the duplicate check protects.
    pub fn enable(&mut self, registry: &mut HookRegistry) -> (r: Result<(), HookFailure>)
        requires
            old(self).state is TrampolineBuilt,
        ensures
            final(self).target@ == old(self).target@,
            (match old(self).state {
                HookState::TrampolineBuilt(a, _) => {
                    if old(registry).addresses().contains(a) {
                        &&& r == Err::<(), HookFailure>(HookFailure::DuplicateAddress)
                        &&& final(registry).addresses() == old(registry).addresses()
                        &&& final(self).state == HookState::Failed(HookFailure::DuplicateAddress)
                    } else {
                        &&& r == Ok::<(), HookFailure>(())
                        &&& final(registry).addresses() == old(registry).addresses().push(a)
                        &&& final(self).state == HookState::Enabled(a)
                    }
                },
                _ => false,
            }),
    {
        let a = match self.state {
            HookState::TrampolineBuilt(a, _) => a,
            _ => 0,
        };
        if registry.is_enabled(a) {
            self.state = HookState::Failed(HookFailure::DuplicateAddress);
            Err(HookFailure::DuplicateAddress)
        } else {
            registry.enabled.push(a);
            self.state = HookState::Enabled(a);
            Ok(())
        }
    }

    /// Fails this hook: reachable from any non-terminal state, terminal once
    /// entered, and isolated — no other hook and no registry entry changes.
    pub fn fail(&mut self, reason: HookFailure)
        requires
            !is_terminal(old(self).state),
        ensures
            final(self).target@ == old(self).target@,
            final(self).state == HookState::Failed(reason),
    {
        self.state = HookState::Failed(reason);
    }
}

/// Exactly one enabled hook may exist per target address: a registry whose
/// addresses are pairwise distinct stays pairwise distinct through `enable`,
/// which admits an address only after the duplicate check refuses it to
/// everyone else.
pub proof fn lemma_enable_keeps_addresses_distinct(before: Seq<u64>, after: Seq<u64>, a: u64)
    requires
        forall|i: int, j: int| 0 <= i < j < before.len() ==> before[i] != before[j],
        after == (if before.contains(a) {
            before
        } else {
            before.push(a)
        }),
    ensures
        forall|i: int, j: int| 0 <= i < j < after.len() ==> after[i] != after[j],
{
    if !before.contains(a) {
        assert forall|i: int, j: int| 0 <= i < j < after.len() implies after[i] != after[j] by {
            if j == before.len() {
                assert(after[i] == before[i]);
                if before[i] == a {
                    assert(before.contains(a));
                }
            }
        }
    }
}

} // verus!
