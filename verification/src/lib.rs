//! A token-gated ballot. Each participant holds at most one voting-right
//! token; a holder votes for a candidate or delegates its right to another
//! holder, inside a voting window. The token ledger and the ballot are two
//! state machines, each with a mathematical model, and every operation says
//! in its contract what it does to the model.

pub mod address;
pub mod ballot;
pub mod laws;
pub mod ledger;
pub mod seqs;
pub mod storage;
pub mod symbol;
pub mod tally;
pub mod token;
pub mod validation;
