use crate::decimal::{decimal_digits, decimal_of, parse_decimal, to_decimal};
use crate::error::{
    fails_not_found, fails_unsupported, gives_content, gives_listing, names_view, not_found,
    unsupported, Entry, FsError,
};
use crate::memory::MockMemory;
use crate::registry::Registry;
use vstd::prelude::*;

verus! {

/// How a register is addressed on the bus.
#[derive(Clone, Copy, PartialEq, Eq, Debug)]
pub enum Access {
    /// By address and numeric value, with no translation.
    Raw,
    /// By the name of a setting, which the bus maps onto one or more raw fields.
    Cooked,
}

/// One call made on a bus.
pub enum BusCall {
    Read(Access, Seq<char>),
    Write(Access, Seq<char>, u64),
    Delay(u64),
}

/// The hardware link of a device: a register bus and a clock to wait on.
///
/// Nothing is promised of what the hardware answers; every caller handles any outcome.
pub trait Bus {
    fn read(&mut self, access: Access, register: &String) -> Result<u64, FsError>;

    fn write(&mut self, access: Access, register: &String, value: u64) -> Result<(), FsError>;

    /// Waits `millis` milliseconds, for the hardware to settle.
    fn delay(&mut self, millis: u64);
}

/// One addressable hardware unit: its registers with their default values, and
/// the channel through which they are reached (the bus, or a mock memory).
pub struct Device<B> {
    name: String,
    registers: Registry<u64>,
    mock: Option<MockMemory>,
    bus: B,
    calls: Ghost<Seq<BusCall>>,
}

impl<B: Bus> Device<B> {
    pub closed spec fn name_view(&self) -> Seq<char> {
        self.name@
    }

    /// The names of the device's registers, in order.
    pub closed spec fn register_names(&self) -> Seq<Seq<char>> {
        self.registers.keys()
    }

    /// The documented default value of register `name`.
    pub closed spec fn default_of(&self, name: Seq<char>) -> Option<u64> {
        self.registers.lookup(name)
    }

    /// The calls the device has made on its bus so far, oldest first.
    pub closed spec fn bus_calls(&self) -> Seq<BusCall> {
        self.calls@
    }

    /// Whether the channel is the mock memory rather than the bus.
    pub closed spec fn is_mocked(&self) -> bool {
        self.mock is Some
    }

    /// What the mock memory holds for register `name`.
    pub closed spec fn mocked_value(&self, name: Seq<char>) -> Option<u64> {
        match self.mock {
            Some(m) => m.value_of(name),
            None => None,
        }
    }

    pub closed spec fn wf(&self) -> bool {
        &&& self.registers.wf()
        &&& forall|k: Seq<char>| #[trigger] self.default_of(k) is Some <==> self.register_names().contains(k)
        &&& self.mock matches Some(m) ==> m.wf() && m.keys() == self.registers.keys()
    }

    /// Same name, registers and channel variant.
    pub open spec fn same_shape(&self, o: &Self) -> bool {
        &&& self.name_view() == o.name_view()
        &&& self.register_names() == o.register_names()
        &&& forall|k: Seq<char>| #[trigger] self.default_of(k) == o.default_of(k)
        &&& self.is_mocked() == o.is_mocked()
    }

    /// Same name, registers, channel variant and mock contents.
    pub open spec fn same_state(&self, o: &Self) -> bool {
        &&& self.name_view() == o.name_view()
        &&& self.register_names() == o.register_names()
        &&& forall|k: Seq<char>| #[trigger] self.default_of(k) == o.default_of(k)
        &&& self.is_mocked() == o.is_mocked()
        &&& forall|k: Seq<char>| #[trigger] self.mocked_value(k) == o.mocked_value(k)
    }

    /// As `o`, but for register `name`, which the mock memory now holds as `value`.
    pub open spec fn stored(&self, o: &Self, name: Seq<char>, value: u64) -> bool {
        &&& self.name_view() == o.name_view()
        &&& self.register_names() == o.register_names()
        &&& forall|k: Seq<char>| #[trigger] self.default_of(k) == o.default_of(k)
        &&& self.is_mocked() == o.is_mocked()
        &&& self.mocked_value(name) == Some(value)
        &&& forall|k: Seq<char>| k != name ==> #[trigger] self.mocked_value(k) == o.mocked_value(k)
    }

    pub proof fn lemma_mocked_has(&self, name: Seq<char>)
        requires
            self.wf(),
            self.is_mocked(),
        ensures
            self.mocked_value(name) is Some <==> self.register_names().contains(name),
    {
        self.mock->Some_0.lemma_has(name);
    }

    /// A device without registers, on the bus `bus`.
    pub fn new(name: String, bus: B) -> (r: Self)
        ensures
            r.wf(),
            r.name_view() == name@,
            r.register_names() == Seq::<Seq<char>>::empty(),
            !r.is_mocked(),
            r.bus_calls() == Seq::<BusCall>::empty(),
    {
        Device { name, registers: Registry::new(), mock: None, bus, calls: Ghost(Seq::empty()) }
    }

    pub fn name(&self) -> (r: &String)
        ensures
            r@ == self.name_view(),
    {
        &self.name
    }

    /// Declares register `name` with its default value, unless the device
    /// already has it; says whether it was added.
    pub fn add_register(&mut self, name: String, default: u64) -> (r: bool)
        requires
            old(self).wf(),
            !old(self).is_mocked(),
        ensures
            final(self).wf(),
            !final(self).is_mocked(),
            final(self).name_view() == old(self).name_view(),
            final(self).bus_calls() == old(self).bus_calls(),
            r == !old(self).register_names().contains(name@),
            r ==> final(self).register_names() == old(self).register_names().push(name@),
            r ==> final(self).default_of(name@) == Some(default),
            !r ==> final(self).register_names() == old(self).register_names(),
            forall|k: Seq<char>| k != name@ ==> #[trigger] final(self).default_of(k) == old(self).default_of(k),
    {
        let ghost n = name@;
        let r = self.registers.add(name, default);
        proof {
            if r {
                let last = self.registers.keys().len() - 1;
                self.registers.lemma_index_of(last);
                assert forall|k: Seq<char>| k != n implies #[trigger] self.default_of(k) == old(self).default_of(k) by {
                    if old(self).registers.keys().contains(k) {
                        let j = old(self).registers.index_of(k)->Some_0;
                        old(self).registers.lemma_index_of(j);
                        self.registers.lemma_index_of(j);
                    } else {
                        assert(!self.registers.keys().contains(k));
                    }
                }
            }
            assert forall|k: Seq<char>| #[trigger] self.default_of(k) is Some <==> self.register_names().contains(k) by {}
        }
        r
    }

    /// Switches the channel to a fresh mock memory that holds every register's default.
    pub fn set_mock(&mut self)
        requires
            old(self).wf(),
        ensures
            final(self).wf(),
            final(self).is_mocked(),
            final(self).bus_calls() == old(self).bus_calls(),
            final(self).name_view() == old(self).name_view(),
            final(self).register_names() == old(self).register_names(),
            forall|k: Seq<char>| #[trigger] final(self).default_of(k) == old(self).default_of(k),
            forall|k: Seq<char>| #[trigger] final(self).mocked_value(k) == old(self).default_of(k),
    {
        let m = MockMemory::seeded(&self.registers);
        self.mock = Some(m);
    }

    /// Switches the channel back to the bus.
    pub fn unset_mock(&mut self)
        requires
            old(self).wf(),
        ensures
            final(self).wf(),
            !final(self).is_mocked(),
            final(self).bus_calls() == old(self).bus_calls(),
            final(self).name_view() == old(self).name_view(),
            final(self).register_names() == old(self).register_names(),
            forall|k: Seq<char>| #[trigger] final(self).default_of(k) == old(self).default_of(k),
    {
        self.mock = None;
    }

    /// Reads register `name` through the channel.
    pub fn read_register(&mut self, access: Access, name: &String) -> (r: Result<u64, FsError>)
        requires
            old(self).wf(),
        ensures
            final(self).wf(),
            final(self).same_state(old(self)),
            !old(self).register_names().contains(name@) ==> fails_not_found(r, name@),
            old(self).register_names().contains(name@) && old(self).is_mocked()
                ==> r == Ok::<u64, FsError>(old(self).mocked_value(name@)->Some_0),
            !old(self).register_names().contains(name@) || old(self).is_mocked()
                ==> final(self).bus_calls() == old(self).bus_calls(),
            old(self).register_names().contains(name@) && !old(self).is_mocked()
                ==> final(self).bus_calls() == old(self).bus_calls().push(BusCall::Read(access, name@)),
    {
        if self.registers.find(name).is_none() {
            return Err(not_found(name));
        }
        proof {
            if self.is_mocked() {
                self.lemma_mocked_has(name@);
            }
        }
        match &self.mock {
            Some(m) => {
                let v = m.read(name);
                match v {
                    Some(x) => Ok(x),
                    None => Err(not_found(name)),
                }
            },
            None => {
                self.calls = Ghost(self.calls@.push(BusCall::Read(access, name@)));
                self.bus.read(access, name)
            },
        }
    }

    /// Writes `value` to register `name` through the channel.
    pub fn write_register(&mut self, access: Access, name: &String, value: u64) -> (r: Result<(), FsError>)
        requires
            old(self).wf(),
        ensures
            final(self).wf(),
            !old(self).register_names().contains(name@) ==> fails_not_found(r, name@),
            !old(self).register_names().contains(name@) ==> final(self).same_state(old(self)),
            old(self).register_names().contains(name@) && old(self).is_mocked() ==> r is Ok,
            old(self).register_names().contains(name@) && old(self).is_mocked()
                ==> final(self).stored(old(self), name@, value),
            !old(self).is_mocked() ==> final(self).same_state(old(self)),
            !old(self).register_names().contains(name@) || old(self).is_mocked()
                ==> final(self).bus_calls() == old(self).bus_calls(),
            old(self).register_names().contains(name@) && !old(self).is_mocked()
                ==> final(self).bus_calls() == old(self).bus_calls().push(BusCall::Write(access, name@, value)),
    {
        if self.registers.find(name).is_none() {
            return Err(not_found(name));
        }
        proof {
            if self.is_mocked() {
                self.lemma_mocked_has(name@);
            }
        }
        match &mut self.mock {
            Some(m) => {
                let ok = m.write(name, value);
                if ok {
                    Ok(())
                } else {
                    Err(not_found(name))
                }
            },
            None => {
                self.calls = Ghost(self.calls@.push(BusCall::Write(access, name@, value)));
                self.bus.write(access, name, value)
            },
        }
    }

    /// Waits on the device's bus clock.
    pub fn delay(&mut self, millis: u64)
        requires
            old(self).wf(),
        ensures
            final(self).wf(),
            final(self).same_state(old(self)),
            final(self).bus_calls() == old(self).bus_calls().push(BusCall::Delay(millis)),
    {
        self.calls = Ghost(self.calls@.push(BusCall::Delay(millis)));
        self.bus.delay(millis);
    }

    /// Whether the node at `path[start..]` below the device is a directory.
    pub fn is_dir(&self, path: &Vec<String>, start: usize) -> (r: Result<bool, FsError>)
        requires
            self.wf(),
            start <= path@.len(),
        ensures
            ({
                let p = names_view(path@).skip(start as int);
                &&& p.len() == 0 ==> r == Ok::<bool, FsError>(true)
                &&& p.len() > 0 && !self.register_names().contains(p[0])
                    ==> fails_not_found(r, p[0])
                &&& p.len() == 1 && self.register_names().contains(p[0]) ==> r == Ok::<bool, FsError>(false)
                &&& p.len() > 1 && self.register_names().contains(p[0])
                    ==> fails_not_found(r, p[1])
            }),
    {
        if start == path.len() {
            return Ok(true);
        }
        let reg = &path[start];
        if self.registers.find(reg).is_none() {
            return Err(not_found(reg));
        }
        if start + 1 == path.len() {
            Ok(false)
        } else {
            Err(not_found(&path[start + 1]))
        }
    }

    /// Reads the node at `path[start..]`: the register names, or a register's
    /// value in decimal.
    pub fn read(&mut self, path: &Vec<String>, start: usize) -> (r: Result<Entry, FsError>)
        requires
            old(self).wf(),
            start <= path@.len(),
        ensures
            final(self).wf(),
            final(self).same_state(old(self)),
            ({
                let p = names_view(path@).skip(start as int);
                &&& p.len() == 0 ==> gives_listing(r, old(self).register_names())
                &&& p.len() > 0 && !old(self).register_names().contains(p[0])
                    ==> fails_not_found(r, p[0])
                &&& p.len() == 1 && old(self).register_names().contains(p[0]) && old(self).is_mocked()
                    ==> gives_content(r, decimal_digits(old(self).mocked_value(p[0])->Some_0 as nat))
                &&& p.len() > 1 && old(self).register_names().contains(p[0])
                    ==> fails_not_found(r, p[1])
                &&& p.len() == 1 && old(self).register_names().contains(p[0]) && r is Ok
                    ==> exists|v: u64| gives_content(r, #[trigger] decimal_digits(v as nat))
                &&& p.len() == 1 && old(self).register_names().contains(p[0]) && !old(self).is_mocked()
                    ==> final(self).bus_calls() == old(self).bus_calls().push(BusCall::Read(Access::Cooked, p[0]))
                &&& !(p.len() == 1 && old(self).register_names().contains(p[0]) && !old(self).is_mocked())
                    ==> final(self).bus_calls() == old(self).bus_calls()
            }),
    {
        if start == path.len() {
            return Ok(Entry::Directory(self.registers.names()));
        }
        let reg = &path[start];
        if self.registers.find(reg).is_none() {
            return Err(not_found(reg));
        }
        if start + 1 < path.len() {
            return Err(not_found(&path[start + 1]));
        }
        match self.read_register(Access::Cooked, reg) {
            Ok(v) => {
                let c = to_decimal(v);
                assert(gives_content(Ok::<Entry, FsError>(Entry::Content(c)), decimal_digits(v as nat)));
                Ok(Entry::Content(c))
            },
            Err(e) => Err(e),
        }
    }

    /// Writes the decimal number in `value` to the register at `path[start..]`.
    pub fn write(&mut self, path: &Vec<String>, start: usize, value: &Vec<u8>) -> (r: Result<(), FsError>)
        requires
            old(self).wf(),
            start <= path@.len(),
        ensures
            final(self).wf(),
            ({
                let p = names_view(path@).skip(start as int);
                let known = p.len() > 0 && old(self).register_names().contains(p[0]);
                &&& p.len() == 0 ==> fails_unsupported(r, "write"@)
                &&& p.len() > 0 && !known ==> fails_not_found(r, p[0])
                &&& p.len() > 1 && known ==> fails_not_found(r, p[1])
                &&& p.len() == 1 && known && decimal_of(value@) is None
                    ==> fails_unsupported(r, "parse"@)
                &&& !(p.len() == 1 && known && decimal_of(value@) is Some) ==> final(self).same_state(old(self))
                &&& p.len() == 1 && known && old(self).is_mocked() && decimal_of(value@) is Some ==> {
                    &&& r is Ok
                    &&& final(self).stored(old(self), p[0], decimal_of(value@)->Some_0)
                }
                &&& !old(self).is_mocked() ==> final(self).same_state(old(self))
                &&& p.len() == 1 && known && decimal_of(value@) is Some && !old(self).is_mocked()
                    ==> final(self).bus_calls() == old(self).bus_calls().push(
                        BusCall::Write(Access::Cooked, p[0], decimal_of(value@)->Some_0))
                &&& !(p.len() == 1 && known && decimal_of(value@) is Some && !old(self).is_mocked())
                    ==> final(self).bus_calls() == old(self).bus_calls()
            }),
    {
        if start == path.len() {
            return Err(unsupported("write", "a device"));
        }
        let reg = &path[start];
        if self.registers.find(reg).is_none() {
            return Err(not_found(reg));
        }
        if start + 1 < path.len() {
            return Err(not_found(&path[start + 1]));
        }
        match parse_decimal(value) {
            Some(v) => self.write_register(Access::Cooked, reg, v),
            None => Err(unsupported("parse", "a value that is not a decimal number")),
        }
    }
}

} // verus!
