use vstd::prelude::*;

verus! {

/// Settings of the block miner that runs beside the network layer.
#[derive(Clone, Debug, PartialEq)]
pub struct Config {
    /// Largest number of transactions assembled into one block.
    pub max_tx: usize,
    pub sealer_type: String,
}

impl Config {
    pub fn new(max_tx: usize, sealer_type: String) -> (r: Config)
        ensures
            r.max_tx == max_tx,
            r.sealer_type@ == sealer_type@,
    {
        Config { max_tx, sealer_type }
    }
}

} // verus!
