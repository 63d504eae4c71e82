use vstd::prelude::*;
use crate::error::HostError;

verus! {

/// Gas burnt and gas used so far, with the two budgets they are held to.
#[derive(Clone, Copy, Debug, PartialEq, Eq, Structural)]
pub struct GasCounter {
    pub burnt_gas: u64,
    pub used_gas: u64,
    pub max_gas_burnt: u64,
    pub prepaid_gas: u64,
    pub is_view: bool,
}

/// The outcome of charging `burn` burnt and `use_` used gas: the counter after
/// the charge, or the error that refuses it.
pub open spec fn charge_spec(g: GasCounter, burn: u64, use_: u64) -> Result<GasCounter, HostError> {
    if g.burnt_gas + burn > u64::MAX || g.used_gas + use_ > u64::MAX {
        Err(HostError::IntegerOverflow)
    } else if g.burnt_gas + burn > g.max_gas_burnt {
        Err(HostError::GasLimitExceeded)
    } else if !g.is_view && g.used_gas + use_ > g.prepaid_gas {
        Err(HostError::GasExceeded)
    } else {
        Ok(GasCounter { burnt_gas: (g.burnt_gas + burn) as u64, used_gas: (g.used_gas + use_) as u64, ..g })
    }
}

impl GasCounter {
    pub fn new(max_gas_burnt: u64, prepaid_gas: u64, is_view: bool) -> (r: GasCounter)
        ensures
            r == (GasCounter { burnt_gas: 0, used_gas: 0, max_gas_burnt, prepaid_gas, is_view }),
    {
        GasCounter { burnt_gas: 0, used_gas: 0, max_gas_burnt, prepaid_gas, is_view }
    }

    /// The counter after charging `burn` burnt and `use_` used gas; the
    /// counter itself is never changed, so a refused charge costs nothing.
    pub fn charged(&self, burn: u64, use_: u64) -> (r: Result<GasCounter, HostError>)
        ensures
            r == charge_spec(*self, burn, use_),
    {
        let burnt = match self.burnt_gas.checked_add(burn) {
            Some(b) => b,
            None => { return Err(HostError::IntegerOverflow); },
        };
        let used = match self.used_gas.checked_add(use_) {
            Some(u) => u,
            None => { return Err(HostError::IntegerOverflow); },
        };
        if burnt > self.max_gas_burnt {
            Err(HostError::GasLimitExceeded)
        } else if !self.is_view && used > self.prepaid_gas {
            Err(HostError::GasExceeded)
        } else {
            Ok(GasCounter { burnt_gas: burnt, used_gas: used, ..*self })
        }
    }
}

/// A successful charge never lowers the gas burnt or used, and outside a view
/// call keeps the gas used within the prepaid gas.
pub proof fn law_charge_monotone(g: GasCounter, burn: u64, use_: u64)
    requires
        charge_spec(g, burn, use_) is Ok,
    ensures
        charge_spec(g, burn, use_)->Ok_0.burnt_gas >= g.burnt_gas,
        charge_spec(g, burn, use_)->Ok_0.used_gas >= g.used_gas,
        !g.is_view ==> charge_spec(g, burn, use_)->Ok_0.used_gas <= g.prepaid_gas,
{
}

} // verus!
