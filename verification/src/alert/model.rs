//! Signals, alerts and alert events.
use vstd::prelude::*;

use crate::alert::ip_manager::{FromIpSignal, IpKeyed};
use crate::alert::state::AlertLifecycle;
use crate::anomaly::model::AnomalyLevel;
use crate::binary64::Binary64;
use crate::common::ProtoIndex;

verus! {

/// What kind of anomaly was detected.
#[derive(Debug, Clone, Copy, PartialEq, Eq, Hash, Structural)]
pub enum AlertKind {
    /// Traffic well above the baseline.
    Spike,
    /// Traffic well below the baseline.
    Drop,
    /// Traffic above an absolute threshold, whatever the baseline.
    Emergency,
}

impl AlertKind {
    /// Lowercase name, for metric labels and logs.
    pub open spec fn label_spec(self) -> Seq<char> {
        match self {
            AlertKind::Spike => "spike"@,
            AlertKind::Drop => "drop"@,
            AlertKind::Emergency => "emergency"@,
        }
    }

    /// Lowercase name, for metric labels and logs.
    pub fn label(self) -> (r: &'static str)
        ensures
            r@ == self.label_spec(),
    {
        match self {
            AlertKind::Spike => "spike",
            AlertKind::Drop => "drop",
            AlertKind::Emergency => "emergency",
        }
    }
}

/// What a detector saw for one protocol.
#[derive(Debug, Clone, Copy)]
pub struct AlertSignal {
    pub proto: ProtoIndex,
    pub level: AnomalyLevel,
    pub kind: AlertKind,
    /// How pronounced the anomaly is, from 0 to 1.
    pub confidence: Binary64,
}

/// An alert for one protocol.
#[derive(Debug, Clone, Copy)]
pub struct Alert {
    pub proto: ProtoIndex,
    pub kind: AlertKind,
    pub level: AnomalyLevel,
    pub confidence: Binary64,
}

/// An alert that has fired or resolved.
#[derive(Debug, Clone, Copy)]
pub struct AlertEvent {
    pub alert: Alert,
    pub lifecycle: AlertLifecycle,
}

/// An alert for one source address that has fired or resolved.
#[derive(Debug)]
pub struct IpAlertEvent<A> {
    pub alert: A,
    pub lifecycle: AlertLifecycle,
}

/// A source address that sends SYN packets too fast.
#[derive(Debug, Clone, Copy)]
pub struct SynFloodSignal {
    pub src_ip: u32,
    pub pps: Binary64,
    pub confidence: Binary64,
}

/// A SYN-flood alert for one source address.
#[derive(Debug, Clone, Copy)]
pub struct SynFloodAlert {
    pub src_ip: u32,
    pub pps: Binary64,
    pub confidence: Binary64,
}

impl IpKeyed for SynFloodSignal {
    open spec fn ip(&self) -> u32 {
        self.src_ip
    }

    fn src_ip(&self) -> (r: u32) {
        self.src_ip
    }
}

impl IpKeyed for SynFloodAlert {
    open spec fn ip(&self) -> u32 {
        self.src_ip
    }

    fn src_ip(&self) -> (r: u32) {
        self.src_ip
    }
}

impl FromIpSignal<SynFloodSignal> for SynFloodAlert {
    open spec fn of_signal(src_ip: u32, signal: Option<SynFloodSignal>) -> Self {
        match signal {
            Some(s) => SynFloodAlert { src_ip, pps: s.pps, confidence: s.confidence },
            None => SynFloodAlert { src_ip, pps: Binary64::zero(), confidence: Binary64::zero() },
        }
    }

    fn from_signal(src_ip: u32, signal: Option<&SynFloodSignal>) -> (r: Self) {
        match signal {
            Some(s) => SynFloodAlert { src_ip, pps: s.pps, confidence: s.confidence },
            None => SynFloodAlert { src_ip, pps: Binary64::zero(), confidence: Binary64::zero() },
        }
    }
}

/// A SYN-flood alert that has fired or resolved.
pub type SynFloodAlertEvent = IpAlertEvent<SynFloodAlert>;

/// A source address that touches too many ports.
#[derive(Debug, Clone, Copy)]
pub struct PortScanSignal {
    pub src_ip: u32,
    pub distinct_ports: u32,
    pub confidence: Binary64,
}

/// A port-scan alert for one source address.
#[derive(Debug, Clone, Copy)]
pub struct PortScanAlert {
    pub src_ip: u32,
    pub distinct_ports: u32,
    pub confidence: Binary64,
}

impl IpKeyed for PortScanSignal {
    open spec fn ip(&self) -> u32 {
        self.src_ip
    }

    fn src_ip(&self) -> (r: u32) {
        self.src_ip
    }
}

impl IpKeyed for PortScanAlert {
    open spec fn ip(&self) -> u32 {
        self.src_ip
    }

    fn src_ip(&self) -> (r: u32) {
        self.src_ip
    }
}

impl FromIpSignal<PortScanSignal> for PortScanAlert {
    open spec fn of_signal(src_ip: u32, signal: Option<PortScanSignal>) -> Self {
        match signal {
            Some(s) => PortScanAlert {
                src_ip,
                distinct_ports: s.distinct_ports,
                confidence: s.confidence,
            },
            None => PortScanAlert { src_ip, distinct_ports: 0, confidence: Binary64::zero() },
        }
    }

    fn from_signal(src_ip: u32, signal: Option<&PortScanSignal>) -> (r: Self) {
        match signal {
            Some(s) => PortScanAlert {
                src_ip,
                distinct_ports: s.distinct_ports,
                confidence: s.confidence,
            },
            None => PortScanAlert { src_ip, distinct_ports: 0, confidence: Binary64::zero() },
        }
    }
}

/// A port-scan alert that has fired or resolved.
pub type PortScanAlertEvent = IpAlertEvent<PortScanAlert>;

/// A SYN-flood alert names its address, and the rate and the confidence of the signal that it
/// is made from; without a signal both are 0.
pub proof fn law_flood_alert_repeats_its_signal(src_ip: u32, signal: SynFloodSignal)
    ensures
        ({
            let with = SynFloodAlert::of_signal(src_ip, Some(signal));
            let without = SynFloodAlert::of_signal(src_ip, None::<SynFloodSignal>);
            &&& with.src_ip == src_ip && with.ip() == src_ip
            &&& with.pps == signal.pps && with.confidence == signal.confidence
            &&& without.src_ip == src_ip && without.ip() == src_ip
            &&& without.pps == Binary64::zero() && without.confidence == Binary64::zero()
            &&& signal.ip() == signal.src_ip
        }),
{
}

/// A port-scan alert names its address, and the ports and the confidence of the signal that it
/// is made from; without a signal both are 0.
pub proof fn law_scan_alert_repeats_its_signal(src_ip: u32, signal: PortScanSignal)
    ensures
        ({
            let with = PortScanAlert::of_signal(src_ip, Some(signal));
            let without = PortScanAlert::of_signal(src_ip, None::<PortScanSignal>);
            &&& with.src_ip == src_ip && with.ip() == src_ip
            &&& with.distinct_ports == signal.distinct_ports && with.confidence
                == signal.confidence
            &&& without.src_ip == src_ip && without.ip() == src_ip
            &&& without.distinct_ports == 0 && without.confidence == Binary64::zero()
            &&& signal.ip() == signal.src_ip
        }),
{
}

} // verus!
