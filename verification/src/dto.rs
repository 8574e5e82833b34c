use std::collections::HashMap;

use vstd::prelude::*;

verus! {

/// A process identifier.
pub type Pid = u32;

/// Parent/child indexes of the process hierarchy.
#[derive(Debug, Clone)]
pub struct ProcessHierarchyIndexDTO {
    pub pid_to_ppid: HashMap<Pid, Pid>,
    pub children_by_pid: HashMap<Pid, Vec<Pid>>,
    pub roots: Vec<Pid>,
}

impl ProcessHierarchyIndexDTO {
    pub fn with_values(
        pid_to_ppid: HashMap<Pid, Pid>,
        children_by_pid: HashMap<Pid, Vec<Pid>>,
        roots: Vec<Pid>,
    ) -> (r: Self)
        ensures
            r.pid_to_ppid@ == pid_to_ppid@,
            r.children_by_pid@ == children_by_pid@,
            r.roots@ == roots@,
    {
        ProcessHierarchyIndexDTO { pid_to_ppid, children_by_pid, roots }
    }
}

/// One node of the process tree, with its children.
#[derive(Debug)]
pub struct ProcessHierarchyNodeDTO {
    pub pid: Pid,
    pub ppid: Pid,
    pub name: String,
    pub children: Vec<ProcessHierarchyNodeDTO>,
}

impl ProcessHierarchyNodeDTO {
    pub fn with_values(
        pid: Pid,
        ppid: Pid,
        name: String,
        children: Vec<ProcessHierarchyNodeDTO>,
    ) -> (r: Self)
        ensures
            r.pid == pid,
            r.ppid == ppid,
            r.name@ == name@,
            r.children@ == children@,
    {
        ProcessHierarchyNodeDTO { pid, ppid, name, children }
    }
}

/// Per-process socket statistics as the sampler gathers them.
#[derive(Debug, Clone)]
pub struct ProcessNetworkStatsModel {
    pub pid: Pid,
    pub tcp_open: u32,
    pub tcp_established: u32,
    pub tcp_listen: u32,
    pub udp_open: u32,
    pub socket_inodes: Vec<u64>,
}

/// Per-process socket statistics as the views receive them.
#[derive(Debug, Clone)]
pub struct ProcessNetworkSampleDTO {
    pub pid: Pid,
    pub name: String,
    pub tcp_open: u32,
    pub tcp_established: u32,
    pub tcp_listen: u32,
    pub udp_open: u32,
    pub total_sockets: u32,
}

impl ProcessNetworkSampleDTO {
    pub fn with_values(
        pid: Pid,
        name: String,
        tcp_open: u32,
        tcp_established: u32,
        tcp_listen: u32,
        udp_open: u32,
        total_sockets: u32,
    ) -> (r: Self)
        ensures
            r.pid == pid,
            r.name@ == name@,
            r.tcp_open == tcp_open,
            r.tcp_established == tcp_established,
            r.tcp_listen == tcp_listen,
            r.udp_open == udp_open,
            r.total_sockets == total_sockets,
    {
        ProcessNetworkSampleDTO {
            pid,
            name,
            tcp_open,
            tcp_established,
            tcp_listen,
            udp_open,
            total_sockets,
        }
    }

    /// Builds the sample of a process from its statistics; the socket total
    /// is the number of socket inodes, truncated to 32 bits.
    pub fn from_model(name: String, model: &ProcessNetworkStatsModel) -> (r: Self)
        ensures
            r.pid == model.pid,
            r.name@ == name@,
            r.tcp_open == model.tcp_open,
            r.tcp_established == model.tcp_established,
            r.tcp_listen == model.tcp_listen,
            r.udp_open == model.udp_open,
            r.total_sockets as int == model.socket_inodes@.len() % 0x1_0000_0000,
    {
        let n = model.socket_inodes.len();
        let total = ((n as u64) % 0x1_0000_0000u64) as u32;
        ProcessNetworkSampleDTO {
            pid: model.pid,
            name,
            tcp_open: model.tcp_open,
            tcp_established: model.tcp_established,
            tcp_listen: model.tcp_listen,
            udp_open: model.udp_open,
            total_sockets: total,
        }
    }
}

} // verus!
