//! The settings of a frontend.

use vstd::prelude::*;
use vstd::string::StringExecFns;

use crate::common::text::{decimal, decimal_text};

verus! {

/// A meta node.
#[derive(Debug)]
pub struct MetaNodeConfig {
    pub address: String,
    pub port: u16,
}

/// A frontend and the meta nodes that it knows.
#[derive(Debug)]
pub struct FrontendConfig {
    pub address: String,
    pub port: u16,
    pub provide_meta_node: Option<Vec<MetaNodeConfig>>,
}

/// The address of a meta node.
pub open spec fn node_text(node: MetaNodeConfig) -> Seq<char> {
    node.address@ + ":"@ + decimal(node.port as nat)
}

/// The addresses of the first `n` meta nodes, with commas between them.
pub open spec fn nodes_text(nodes: Seq<MetaNodeConfig>, n: int) -> Seq<char>
    decreases n,
{
    if n <= 0 {
        Seq::empty()
    } else if n == 1 {
        node_text(nodes[0])
    } else {
        nodes_text(nodes, n - 1) + ","@ + node_text(nodes[n - 1])
    }
}

/// The file of settings.
pub open spec fn properties_text(config: FrontendConfig) -> Seq<char> {
    let nodes = config.provide_meta_node->0@;
    "# --- THIS FILE IS AUTO GENERATED BY RISEDEV ---\nrisingwave.pgserver.ip="@ + config.address@
        + "\nrisingwave.pgserver.port="@ + decimal(config.port as nat)
        + "\nrisingwave.leader.clustermode=Distributed\n\nrisingwave.catalog.mode=Remote\nrisingwave.meta.node="@
        + nodes_text(nodes, nodes.len() as int) + "\n"@
}

/// Writes the settings of frontends.
#[derive(Debug)]
pub struct FrontendGen;

impl FrontendGen {
    /// The file of settings of a frontend that knows its meta nodes.
    pub fn gen_server_properties(&self, config: &FrontendConfig) -> (r: String)
        requires
            config.provide_meta_node is Some,
        ensures
            r@ == properties_text(*config),
    {
        let mut hosts: String = String::new();
        if let Some(nodes) = &config.provide_meta_node {
            let mut i: usize = 0;
            proof {
                assert(hosts@ =~= Seq::empty());
            }
            while i < nodes.len()
                invariant
                    i <= nodes@.len(),
                    hosts@ == nodes_text(nodes@, i as int),
                decreases nodes@.len() - i,
            {
                let ghost before = hosts@;
                if i > 0 {
                    hosts.append(",");
                }
                hosts.append(nodes[i].address.as_str());
                hosts.append(":");
                hosts.append(decimal_text(nodes[i].port as u64).as_str());
                i = i + 1;
                proof {
                    if i == 1 {
                        assert(hosts@ =~= node_text(nodes@[0]));
                    } else {
                        assert(hosts@ =~= before + ","@ + node_text(nodes@[i - 1]));
                    }
                }
            }
        }
        let mut text: String =
            "# --- THIS FILE IS AUTO GENERATED BY RISEDEV ---\nrisingwave.pgserver.ip=".to_owned();
        text.append(config.address.as_str());
        text.append("\nrisingwave.pgserver.port=");
        text.append(decimal_text(config.port as u64).as_str());
        text.append(
            "\nrisingwave.leader.clustermode=Distributed\n\nrisingwave.catalog.mode=Remote\nrisingwave.meta.node=",
        );
        text.append(hosts.as_str());
        text.append("\n");
        text
    }
}

/// The meta nodes stand in their order, each as its address, a colon and its port, with commas between
/// them.
pub proof fn law_meta_nodes_stand_in_order(nodes: Seq<MetaNodeConfig>, n: int)
    requires
        0 < n < nodes.len(),
    ensures
        nodes_text(nodes, n + 1) == nodes_text(nodes, n) + seq![','] + nodes[n].address@ + seq![':'] + decimal(
            nodes[n].port as nat,
        ),
        nodes_text(nodes, 1) == nodes[0].address@ + seq![':'] + decimal(nodes[0].port as nat),
{
    reveal_strlit(",");
    reveal_strlit(":");
    assert(","@ =~= seq![',']);
    assert(":"@ =~= seq![':']);
    assert(nodes_text(nodes, n + 1) =~= nodes_text(nodes, n) + seq![','] + nodes[n].address@ + seq![':'] + decimal(
        nodes[n].port as nat,
    ));
}

} // verus!
