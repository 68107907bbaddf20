//! Static table of the pool protocols to register per chain.
//!
//! The feed layer registers each listed exchange with the protocol state
//! source when it opens a chain's subscription; which decoder state and
//! which optional component filter each protocol needs is configuration,
//! fixed per chain, and decided here.

use vstd::prelude::*;

use crate::models::Chain;

verus! {

/// Which pool-state decoder the protocol state source should use for an
/// exchange.
#[derive(Clone, Copy, Debug, PartialEq, Eq, Structural)]
pub enum ExchangeStateKind {
    UniswapV2,
    UniswapV3,
    UniswapV4,
    EvmPool,
    Ekubo,
}

/// Which extra component filter the registration carries, if any.
#[derive(Clone, Copy, Debug, PartialEq, Eq, Structural)]
pub enum ComponentFilterKind {
    NoFilter,
    BalancerPool,
    CurvePool,
    UniswapV4Hook,
}

/// One exchange registration: the protocol system's name, its decoder
/// state, and its component filter.
#[derive(Debug)]
pub struct ExchangeRegistration {
    pub protocol_system: String,
    pub state: ExchangeStateKind,
    pub filter: ComponentFilterKind,
}

/// Mathematical image of an [`ExchangeRegistration`].
pub ghost struct ExchangeRegistrationModel {
    pub protocol_system: Seq<char>,
    pub state: ExchangeStateKind,
    pub filter: ComponentFilterKind,
}

impl View for ExchangeRegistration {
    type V = ExchangeRegistrationModel;

    open spec fn view(&self) -> ExchangeRegistrationModel {
        ExchangeRegistrationModel {
            protocol_system: self.protocol_system@,
            state: self.state,
            filter: self.filter,
        }
    }
}

impl DeepView for ExchangeRegistration {
    type V = ExchangeRegistrationModel;

    open spec fn deep_view(&self) -> ExchangeRegistrationModel {
        self@
    }
}

/// The full registration table, per chain.
pub open spec fn spec_register_exchanges(chain: Chain) -> Seq<ExchangeRegistrationModel> {
    match chain {
        Chain::Ethereum => seq![
            ExchangeRegistrationModel {
                protocol_system: "uniswap_v2"@,
                state: ExchangeStateKind::UniswapV2,
                filter: ComponentFilterKind::NoFilter,
            },
            ExchangeRegistrationModel {
                protocol_system: "uniswap_v3"@,
                state: ExchangeStateKind::UniswapV3,
                filter: ComponentFilterKind::NoFilter,
            },
            ExchangeRegistrationModel {
                protocol_system: "vm:balancer_v2"@,
                state: ExchangeStateKind::EvmPool,
                filter: ComponentFilterKind::BalancerPool,
            },
            ExchangeRegistrationModel {
                protocol_system: "vm:curve"@,
                state: ExchangeStateKind::EvmPool,
                filter: ComponentFilterKind::CurvePool,
            },
            ExchangeRegistrationModel {
                protocol_system: "ekubo_v2"@,
                state: ExchangeStateKind::Ekubo,
                filter: ComponentFilterKind::NoFilter,
            },
            ExchangeRegistrationModel {
                protocol_system: "uniswap_v4"@,
                state: ExchangeStateKind::UniswapV4,
                filter: ComponentFilterKind::UniswapV4Hook,
            },
        ],
        Chain::Base => seq![
            ExchangeRegistrationModel {
                protocol_system: "uniswap_v2"@,
                state: ExchangeStateKind::UniswapV2,
                filter: ComponentFilterKind::NoFilter,
            },
            ExchangeRegistrationModel {
                protocol_system: "uniswap_v3"@,
                state: ExchangeStateKind::UniswapV3,
                filter: ComponentFilterKind::NoFilter,
            },
            ExchangeRegistrationModel {
                protocol_system: "uniswap_v4"@,
                state: ExchangeStateKind::UniswapV4,
                filter: ComponentFilterKind::UniswapV4Hook,
            },
        ],
        Chain::Unichain => seq![
            ExchangeRegistrationModel {
                protocol_system: "uniswap_v2"@,
                state: ExchangeStateKind::UniswapV2,
                filter: ComponentFilterKind::NoFilter,
            },
            ExchangeRegistrationModel {
                protocol_system: "uniswap_v3"@,
                state: ExchangeStateKind::UniswapV3,
                filter: ComponentFilterKind::NoFilter,
            },
            ExchangeRegistrationModel {
                protocol_system: "uniswap_v4"@,
                state: ExchangeStateKind::UniswapV4,
                filter: ComponentFilterKind::UniswapV4Hook,
            },
        ],
    }
}

/// Build one registration from its parts.
fn registration(name: &str, state: ExchangeStateKind, filter: ComponentFilterKind) -> (r:
    ExchangeRegistration)
    ensures
        r@ == (ExchangeRegistrationModel { protocol_system: name@, state, filter }),
{
    ExchangeRegistration { protocol_system: name.to_owned(), state, filter }
}

/// The exchanges to register with the protocol state source for `chain`,
/// in registration order.
pub fn register_exchanges(chain: Chain) -> (r: Vec<ExchangeRegistration>)
    ensures
        r.deep_view() == spec_register_exchanges(chain),
{
    let mut r: Vec<ExchangeRegistration> = Vec::new();
    match chain {
        Chain::Ethereum => {
            r.push(
                registration(
                    "uniswap_v2",
                    ExchangeStateKind::UniswapV2,
                    ComponentFilterKind::NoFilter,
                ),
            );
            r.push(
                registration(
                    "uniswap_v3",
                    ExchangeStateKind::UniswapV3,
                    ComponentFilterKind::NoFilter,
                ),
            );
            r.push(
                registration(
                    "vm:balancer_v2",
                    ExchangeStateKind::EvmPool,
                    ComponentFilterKind::BalancerPool,
                ),
            );
            r.push(
                registration(
                    "vm:curve",
                    ExchangeStateKind::EvmPool,
                    ComponentFilterKind::CurvePool,
                ),
            );
            r.push(
                registration("ekubo_v2", ExchangeStateKind::Ekubo, ComponentFilterKind::NoFilter),
            );
            r.push(
                registration(
                    "uniswap_v4",
                    ExchangeStateKind::UniswapV4,
                    ComponentFilterKind::UniswapV4Hook,
                ),
            );
            proof {
                assert(r.deep_view() =~= spec_register_exchanges(chain));
            }
        },
        Chain::Base => {
            r.push(
                registration(
                    "uniswap_v2",
                    ExchangeStateKind::UniswapV2,
                    ComponentFilterKind::NoFilter,
                ),
            );
            r.push(
                registration(
                    "uniswap_v3",
                    ExchangeStateKind::UniswapV3,
                    ComponentFilterKind::NoFilter,
                ),
            );
            r.push(
                registration(
                    "uniswap_v4",
                    ExchangeStateKind::UniswapV4,
                    ComponentFilterKind::UniswapV4Hook,
                ),
            );
            proof {
                assert(r.deep_view() =~= spec_register_exchanges(chain));
            }
        },
        Chain::Unichain => {
            r.push(
                registration(
                    "uniswap_v2",
                    ExchangeStateKind::UniswapV2,
                    ComponentFilterKind::NoFilter,
                ),
            );
            r.push(
                registration(
                    "uniswap_v3",
                    ExchangeStateKind::UniswapV3,
                    ComponentFilterKind::NoFilter,
                ),
            );
            r.push(
                registration(
                    "uniswap_v4",
                    ExchangeStateKind::UniswapV4,
                    ComponentFilterKind::UniswapV4Hook,
                ),
            );
            proof {
                assert(r.deep_view() =~= spec_register_exchanges(chain));
            }
        },
    }
    r
}

} // verus!
