//! The rows the interface's tables show, made from the sampled records.

use vstd::prelude::*;

use crate::dto::{Pid, ProcessNetworkSampleDTO};

verus! {

/// A row of the network table.
#[derive(Debug, Clone)]
pub struct NetworkRowViewModel {
    pub pid: Pid,
    pub name: String,
    pub tcp_open: u32,
    pub tcp_established: u32,
    pub tcp_listen: u32,
    pub udp_open: u32,
    pub total_sockets: u32,
}

/// A network row shows its sample as it is.
pub open spec fn shows_sample(row: NetworkRowViewModel, s: ProcessNetworkSampleDTO) -> bool {
    &&& row.pid == s.pid
    &&& row.name@ == s.name@
    &&& row.tcp_open == s.tcp_open
    &&& row.tcp_established == s.tcp_established
    &&& row.tcp_listen == s.tcp_listen
    &&& row.udp_open == s.udp_open
    &&& row.total_sockets == s.total_sockets
}

/// One network row per sample, in the samples' order.
pub fn network_rows_from_dtos(samples: &Vec<ProcessNetworkSampleDTO>) -> (r: Vec<NetworkRowViewModel>)
    ensures
        r@.len() == samples@.len(),
        forall|k: int| 0 <= k < r@.len() ==> shows_sample(#[trigger] r@[k], samples@[k]),
{
    let mut rows: Vec<NetworkRowViewModel> = Vec::new();
    let mut i: usize = 0;
    while i < samples.len()
        invariant
            i <= samples@.len(),
            rows@.len() == i,
            forall|k: int| 0 <= k < i ==> shows_sample(#[trigger] rows@[k], samples@[k]),
        decreases samples@.len() - i,
    {
        let s = &samples[i];
        rows.push(
            NetworkRowViewModel {
                pid: s.pid,
                name: s.name.clone(),
                tcp_open: s.tcp_open,
                tcp_established: s.tcp_established,
                tcp_listen: s.tcp_listen,
                udp_open: s.udp_open,
                total_sockets: s.total_sockets,
            },
        );
        i = i + 1;
    }
    rows
}

} // verus!
