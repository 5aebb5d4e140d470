use rand::Rng;
use vstd::prelude::*;

verus! {

/// Exclusive upper bound of a socket's voltage reading, in hundredths of a volt
/// (the reading is sampled from `[0.00 V, 380.00 V)`).
pub const VOLTAGE_LIMIT: u32 = 38000;

/// Relies on `rand::thread_rng` and `Rng::gen_range`: a value drawn from the
/// half-open range `0..high`, which `gen_range` panics on only when it is empty.
#[verifier::external_body]
pub(crate) fn random_below(high: u32) -> (r: u32)
    requires
        high > 0,
    ensures
        r < high,
{
    rand::thread_rng().gen_range(0..high)
}

/// What every device offers: an immutable identity and a reading that a poll
/// refreshes.
pub trait Device {
    /// The device's identity.
    spec fn id_view(&self) -> Seq<char>;

    /// Whether the device's reading lies in its sampling domain.
    spec fn reading_in_domain(&self) -> bool;

    fn name(&self) -> (r: String)
        ensures
            r@ == self.id_view(),
    ;

    /// Samples a fresh reading; the identity is kept.
    fn poll(&mut self)
        ensures
            final(self).id_view() == old(self).id_view(),
            final(self).reading_in_domain(),
    ;
}

/// The abstract state of a socket: its name and its voltage in hundredths of a volt.
pub struct SocketView {
    pub name: Seq<char>,
    pub voltage: nat,
}

/// A powered socket that reports its voltage.
pub struct Socket {
    name: String,
    voltage: u32,
}

impl View for Socket {
    type V = SocketView;

    closed spec fn view(&self) -> SocketView {
        SocketView { name: self.name@, voltage: self.voltage as nat }
    }
}

impl Socket {
    /// The voltage reading lies in `[0, VOLTAGE_LIMIT)`; every socket keeps this.
    #[verifier::type_invariant]
    pub open spec fn wf(&self) -> bool {
        self@.voltage < VOLTAGE_LIMIT
    }

    /// A socket named `name` whose reading is `voltage`.
    pub fn with_voltage(name: &str, voltage: u32) -> (s: Socket)
        requires
            voltage < VOLTAGE_LIMIT,
        ensures
            s@ == (SocketView { name: name@, voltage: voltage as nat }),
    {
        Socket { name: name.to_string(), voltage }
    }

    /// A socket named `name`, with a freshly sampled voltage.
    pub fn new(name: &str) -> (s: Socket)
        ensures
            s@.name == name@,
            s.wf(),
    {
        Socket::with_voltage(name, random_below(VOLTAGE_LIMIT))
    }

    /// Replaces the reading with `voltage`; the name is kept.
    pub fn set_voltage(&mut self, voltage: u32)
        requires
            voltage < VOLTAGE_LIMIT,
        ensures
            final(self)@ == (SocketView { name: old(self)@.name, voltage: voltage as nat }),
    {
        self.voltage = voltage;
    }

    /// The voltage in hundredths of a volt.
    pub fn voltage(&self) -> (r: u32)
        ensures
            r == self@.voltage,
            r < VOLTAGE_LIMIT,
    {
        proof {
            use_type_invariant(self);
        }
        self.voltage
    }
}

impl Device for Socket {
    open spec fn id_view(&self) -> Seq<char> {
        self@.name
    }

    open spec fn reading_in_domain(&self) -> bool {
        self.wf()
    }

    fn name(&self) -> (r: String) {
        self.name.clone()
    }

    fn poll(&mut self) {
        self.set_voltage(random_below(VOLTAGE_LIMIT));
    }
}

} // verus!
