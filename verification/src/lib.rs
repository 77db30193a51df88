//! Reward and consensus engine of a peer-scored network.
//!
//! Participants of a subnet score each other with weights. Once per epoch the
//! engine turns those weights and the participants' stake into trust,
//! incentive and dividend scores, and splits the epoch's token emission
//! accordingly. A second part simulates a participant that copies the public
//! consensus, to decide when withheld weights may be revealed.
//!
//! The numbers and the matrices: [`fixed`], [`math`], [`sparse`], [`median`],
//! and what normalisation guarantees, [`normal`].
//!
//! The epoch: its snapshot, [`params`]; its steps, [`yuma`]; that it hands
//! out no more than it has, [`conservation`]; who gets the tokens,
//! [`distribute`]; when it runs and in which mode, [`emission`] and
//! [`modes`].
//!
//! The detection of copying: [`profitability`], [`bonds`], [`simulation`]
//! and the worker's pass, [`process`].
//!
//! The rules around it: [`weights`], [`registration`], [`network`],
//! [`voting`] and [`governance`].
pub mod bonds;
pub mod conservation;
pub mod distribute;
pub mod emission;
pub mod fixed;
pub mod governance;
pub mod math;
pub mod median;
pub mod modes;
pub mod network;
pub mod normal;
pub mod params;
pub mod process;
pub mod profitability;
pub mod registration;
pub mod simulation;
pub mod sparse;
pub mod voting;
pub mod weights;
pub mod yuma;
