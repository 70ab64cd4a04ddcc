//! The shapes of capacity that can be provisioned, and their catalog.

use vstd::prelude::*;

use crate::dimension::Directionality;

verus! {

/// A shape of capacity.
#[derive(Debug, Clone, Copy, PartialEq, Eq, Hash, Structural)]
pub enum Forma {
    /// An on-demand node.
    NodeOnDemand,
    /// A spot node.
    NodeSpot,
    /// Provisioned volume operations.
    ProvisionedIops,
    /// Provisioned volume throughput.
    ProvisionedThroughput,
    /// Table capacity.
    DynamoCapacity,
    /// A spending commitment.
    Commitment,
    /// An accelerator.
    Accelerator,
    /// A serverless concurrency slot.
    ServerlessSlot,
    /// Capacity in a zone.
    ZoneCapacity,
    /// A placement at the edge.
    EdgePlacement,
    /// Load-balancer capacity.
    LbCapacity,
    /// Egress bandwidth.
    EgressBandwidth,
    /// A builder made on demand.
    JitBuilder,
    /// Log ingestion.
    LogIngestion,
}

impl Forma {
    /// The name of the shape.
    pub open spec fn name(self) -> Seq<char> {
        match self {
            Forma::NodeOnDemand => "node-on-demand"@,
            Forma::NodeSpot => "node-spot"@,
            Forma::ProvisionedIops => "provisioned-iops"@,
            Forma::ProvisionedThroughput => "provisioned-throughput"@,
            Forma::DynamoCapacity => "dynamo-capacity"@,
            Forma::Commitment => "commitment"@,
            Forma::Accelerator => "accelerator"@,
            Forma::ServerlessSlot => "serverless-slot"@,
            Forma::ZoneCapacity => "zone-capacity"@,
            Forma::EdgePlacement => "edge-placement"@,
            Forma::LbCapacity => "lb-capacity"@,
            Forma::EgressBandwidth => "egress-bandwidth"@,
            Forma::JitBuilder => "jit-builder"@,
            Forma::LogIngestion => "log-ingestion"@,
        }
    }

    /// The name of the shape.
    #[must_use]
    pub fn as_str(self) -> (r: &'static str)
        ensures
            r@ == self.name(),
    {
        match self {
            Forma::NodeOnDemand => "node-on-demand",
            Forma::NodeSpot => "node-spot",
            Forma::ProvisionedIops => "provisioned-iops",
            Forma::ProvisionedThroughput => "provisioned-throughput",
            Forma::DynamoCapacity => "dynamo-capacity",
            Forma::Commitment => "commitment",
            Forma::Accelerator => "accelerator",
            Forma::ServerlessSlot => "serverless-slot",
            Forma::ZoneCapacity => "zone-capacity",
            Forma::EdgePlacement => "edge-placement",
            Forma::LbCapacity => "lb-capacity",
            Forma::EgressBandwidth => "egress-bandwidth",
            Forma::JitBuilder => "jit-builder",
            Forma::LogIngestion => "log-ingestion",
        }
    }
}

/// What describes a shape of capacity.
pub trait FormaDescriptor: Send + Sync + 'static {
    /// The shape.
    fn forma(&self) -> Forma;

    /// The directions in which it is provisioned.
    fn directionality(&self) -> Directionality;

    /// How long provisioning takes to relieve, in seconds.
    fn relief_latency_secs(&self) -> u64;

    /// The unit that is counted.
    fn unit(&self) -> &'static str;
}

/// A shape described by data.
#[derive(Debug, Clone, Copy, PartialEq, Eq)]
pub struct FormaSpec {
    /// The shape.
    pub forma: Forma,
    /// The directions in which it is provisioned.
    pub directionality: Directionality,
    /// How long provisioning takes to relieve, in seconds.
    pub relief_latency_secs: u64,
    /// The unit that is counted.
    pub unit: &'static str,
}

impl FormaDescriptor for FormaSpec {
    fn forma(&self) -> (r: Forma)
        ensures
            r == self.forma,
    {
        self.forma
    }

    fn directionality(&self) -> (r: Directionality)
        ensures
            r == self.directionality,
    {
        self.directionality
    }

    fn relief_latency_secs(&self) -> (r: u64)
        ensures
            r == self.relief_latency_secs,
    {
        self.relief_latency_secs
    }

    fn unit(&self) -> (r: &'static str)
        ensures
            r == self.unit,
    {
        self.unit
    }
}

/// The row of the catalog for a shape.
pub open spec fn catalog_row(forma: Forma) -> FormaSpec {
    let directionality = if forma is Commitment {
        Directionality::GrowOnly
    } else {
        Directionality::Bidirectional
    };
    let (relief_latency_secs, unit) = match forma {
        Forma::NodeOnDemand => (180u64, "node"),
        Forma::NodeSpot => (120u64, "node"),
        Forma::ProvisionedIops => (60u64, "iops"),
        Forma::ProvisionedThroughput => (60u64, "bytes-per-sec"),
        Forma::DynamoCapacity => (30u64, "capacity-unit"),
        Forma::Commitment => (3600u64, "cents"),
        Forma::Accelerator => (300u64, "gpu"),
        Forma::ServerlessSlot => (60u64, "slot"),
        Forma::ZoneCapacity => (120u64, "instance"),
        Forma::EdgePlacement => (120u64, "instance"),
        Forma::LbCapacity => (180u64, "lcu"),
        Forma::EgressBandwidth => (120u64, "bits-per-sec"),
        Forma::JitBuilder => (120u64, "builder"),
        Forma::LogIngestion => (30u64, "percent"),
    };
    FormaSpec { forma, directionality, relief_latency_secs, unit }
}

/// The shapes in the order of the catalog.
pub open spec fn catalog_order() -> Seq<Forma> {
    seq![
        Forma::NodeOnDemand,
        Forma::NodeSpot,
        Forma::ProvisionedIops,
        Forma::ProvisionedThroughput,
        Forma::DynamoCapacity,
        Forma::Commitment,
        Forma::Accelerator,
        Forma::ServerlessSlot,
        Forma::ZoneCapacity,
        Forma::EdgePlacement,
        Forma::LbCapacity,
        Forma::EgressBandwidth,
        Forma::JitBuilder,
        Forma::LogIngestion,
    ]
}

fn row(
    forma: Forma,
    directionality: Directionality,
    relief_latency_secs: u64,
    unit: &'static str,
) -> (r: FormaSpec)
    ensures
        r == (FormaSpec { forma, directionality, relief_latency_secs, unit }),
{
    FormaSpec { forma, directionality, relief_latency_secs, unit }
}

/// The catalog: one row for each shape.
#[must_use]
pub fn forma_catalog() -> (r: Vec<FormaSpec>)
    ensures
        r@ == catalog_order().map_values(|f: Forma| catalog_row(f)),
{
    let both = Directionality::Bidirectional;
    let mut r: Vec<FormaSpec> = Vec::new();
    r.push(row(Forma::NodeOnDemand, both, 180, "node"));
    r.push(row(Forma::NodeSpot, both, 120, "node"));
    r.push(row(Forma::ProvisionedIops, both, 60, "iops"));
    r.push(row(Forma::ProvisionedThroughput, both, 60, "bytes-per-sec"));
    r.push(row(Forma::DynamoCapacity, both, 30, "capacity-unit"));
    r.push(row(Forma::Commitment, Directionality::GrowOnly, 3600, "cents"));
    r.push(row(Forma::Accelerator, both, 300, "gpu"));
    r.push(row(Forma::ServerlessSlot, both, 60, "slot"));
    r.push(row(Forma::ZoneCapacity, both, 120, "instance"));
    r.push(row(Forma::EdgePlacement, both, 120, "instance"));
    r.push(row(Forma::LbCapacity, both, 180, "lcu"));
    r.push(row(Forma::EgressBandwidth, both, 120, "bits-per-sec"));
    r.push(row(Forma::JitBuilder, both, 120, "builder"));
    r.push(row(Forma::LogIngestion, both, 30, "percent"));
    assert(r@ =~= catalog_order().map_values(|f: Forma| catalog_row(f)));
    r
}

/// The catalog's row for a shape: every shape has one.
#[must_use]
pub fn forma_spec(forma: Forma) -> (r: Option<FormaSpec>)
    ensures
        r == Some(catalog_row(forma)),
{
    let catalog = forma_catalog();
    let mut i: usize = 0;
    while i < catalog.len()
        invariant
            i <= catalog.len(),
            catalog@ == catalog_order().map_values(|f: Forma| catalog_row(f)),
            forall|j: int| 0 <= j < i ==> #[trigger] catalog_order()[j] != forma,
        decreases catalog.len() - i,
    {
        if catalog[i].forma == forma {
            return Some(catalog[i]);
        }
        i = i + 1;
    }
    proof {
        every_shape_is_in_the_catalog(forma);
    }
    None
}

/// The catalog lists every shape, and none twice.
pub proof fn every_shape_is_in_the_catalog(forma: Forma)
    ensures
        exists|j: int| 0 <= j < catalog_order().len() && #[trigger] catalog_order()[j] == forma,
        catalog_order().no_duplicates(),
{
    let order = catalog_order();
    let j: int = match forma {
        Forma::NodeOnDemand => 0,
        Forma::NodeSpot => 1,
        Forma::ProvisionedIops => 2,
        Forma::ProvisionedThroughput => 3,
        Forma::DynamoCapacity => 4,
        Forma::Commitment => 5,
        Forma::Accelerator => 6,
        Forma::ServerlessSlot => 7,
        Forma::ZoneCapacity => 8,
        Forma::EdgePlacement => 9,
        Forma::LbCapacity => 10,
        Forma::EgressBandwidth => 11,
        Forma::JitBuilder => 12,
        Forma::LogIngestion => 13,
    };
    assert(order[j] == forma);
}

/// The on-demand node, described by code.
#[derive(Debug, Clone, Copy, Default)]
pub struct NodeOnDemandDescriptor;

impl FormaDescriptor for NodeOnDemandDescriptor {
    fn forma(&self) -> (r: Forma)
        ensures
            r == Forma::NodeOnDemand,
    {
        Forma::NodeOnDemand
    }

    fn directionality(&self) -> (r: Directionality)
        ensures
            r == Directionality::Bidirectional,
    {
        Directionality::Bidirectional
    }

    fn relief_latency_secs(&self) -> (r: u64)
        ensures
            r == 180,
    {
        180
    }

    fn unit(&self) -> (r: &'static str)
        ensures
            r@ == "node"@,
    {
        "node"
    }
}

/// The hand-written on-demand node says what its catalog row says.
pub proof fn on_demand_row_agrees_with_its_descriptor()
    ensures
        catalog_row(Forma::NodeOnDemand).relief_latency_secs == 180,
        catalog_row(Forma::NodeOnDemand).directionality == Directionality::Bidirectional,
        catalog_row(Forma::NodeOnDemand).unit@ == "node"@,
{
}

/// What a provider of a shape reports.
#[derive(Debug, Clone, Copy, PartialEq, Eq, Structural)]
pub struct FormaSample {
    /// The amount in use.
    pub used: u64,
    /// The usable amount.
    pub capacity: u64,
}

/// What a provider of a shape did.
#[derive(Debug, PartialEq, Eq)]
pub enum ProvisionReceipt {
    /// Nothing was done; this is what would have been.
    DryRun { would: i64 },
    /// The change was made.
    Applied { delta: i64, plan_id: String },
    /// There was nothing to do.
    NoOp,
}

/// Every shape has a row of its own, that names it, takes some time to bring relief
/// and is counted in some unit; only a commitment cannot be given up again.
pub proof fn only_a_commitment_cannot_be_given_up(forma: Forma)
    ensures
        catalog_row(forma).forma == forma,
        catalog_row(forma).relief_latency_secs > 0,
        catalog_row(forma).unit@.len() > 0,
        catalog_row(forma).directionality is GrowOnly <==> forma is Commitment,
        catalog_row(forma).directionality is Bidirectional <==> !(forma is Commitment),
{
    reveal_strlit("node");
    reveal_strlit("iops");
    reveal_strlit("bytes-per-sec");
    reveal_strlit("capacity-unit");
    reveal_strlit("cents");
    reveal_strlit("gpu");
    reveal_strlit("slot");
    reveal_strlit("instance");
    reveal_strlit("lcu");
    reveal_strlit("bits-per-sec");
    reveal_strlit("builder");
    reveal_strlit("percent");
}

} // verus!
