use crate::decimal::{decimal_digits, decimal_of};
use crate::device::{Access, Bus, BusCall, Device};
use crate::error::{
    answers, fails_not_found, fails_unsupported, gives_content, gives_listing, names_view, not_found,
    probe, unsupported, Answer, Entry, FsError,
};
use crate::front::Shape;
use crate::registry::Registry;
use crate::script::{
    declared_fields, ok_run, plan_calls, plan_of, run_steps, stopped_at, written, Script, ScriptKind,
    Target,
};
use vstd::prelude::*;
use vstd::string::StringExecFns;
use vstd::utf8::encode_utf8;

verus! {

/// The names of the camera's own top-level entries, in order.
pub open spec fn top_names() -> Seq<Seq<char>> {
    seq!["camera_model"@, "devices"@, "scripts"@]
}

/// The scripts that camera model `model` offers, by name.
pub open spec fn model_scripts(model: Seq<char>) -> Seq<(Seq<char>, ScriptKind)> {
    if model == "micro_r2"@ {
        seq![("reset"@, ScriptKind::Reset), ("kick"@, ScriptKind::Kick)]
    } else {
        Seq::empty()
    }
}

/// The camera's three top-level names differ from one another.
pub proof fn lemma_top_names_distinct()
    ensures
        "camera_model"@ != "devices"@,
        "camera_model"@ != "scripts"@,
        "devices"@ != "scripts"@,
{
    reveal_strlit("camera_model");
    reveal_strlit("devices");
    reveal_strlit("scripts");
    assert("camera_model"@.len() != "devices"@.len());
    assert("camera_model"@.len() != "scripts"@.len());
    assert("devices"@[0] != "scripts"@[0]);
}

proof fn lemma_target_names_distinct()
    ensures
        "sensor"@ != "sensor_io"@,
{
    reveal_strlit("sensor");
    reveal_strlit("sensor_io");
    assert("sensor"@.len() != "sensor_io"@.len());
}

/// Whether `seg` spells `lit`.
pub(crate) fn is_name(seg: &String, lit: &str) -> (r: bool)
    ensures
        r == (seg@ == lit@),
{
    *seg == String::from_str(lit)
}

/// The script registry of camera model `model`.
pub fn scripts_for_model(model: &String) -> (r: Registry<Script>)
    ensures
        r.wf(),
        r.keys() == model_scripts(model@).map_values(|e: (Seq<char>, ScriptKind)| e.0),
        forall|i: int| 0 <= i < r.keys().len() ==> {
            &&& (#[trigger] r.items()[i]).wf()
            &&& r.items()[i].kind_of() == model_scripts(model@)[i].1
            &&& r.items()[i].field_names() == declared_fields(r.items()[i].kind_of())
            &&& forall|k: Seq<char>| r.items()[i].field_names().contains(k)
                ==> #[trigger] r.items()[i].field_value(k) == Some(0u8)
        },
{
    let mut r: Registry<Script> = Registry::new();
    if is_name(model, "micro_r2") {
        let reset = String::from_str("reset");
        let kick = String::from_str("kick");
        r.add(reset, Script::new(ScriptKind::Reset));
        proof {
            reveal_strlit("reset");
            reveal_strlit("kick");
            assert(!r.keys().contains(kick@)) by {
                assert(r.keys()[0] == "reset"@);
                assert("reset"@ != "kick"@) by {
                    assert("reset"@[0] != "kick"@[0]);
                }
            }
        }
        r.add(kick, Script::new(ScriptKind::Kick));
    }
    proof {
        assert(r.keys() =~= model_scripts(model@).map_values(|e: (Seq<char>, ScriptKind)| e.0));
    }
    r
}

/// A camera: its model name, its devices and the scripts of its model, each
/// reachable by path.
pub struct Camera<B> {
    camera_model: String,
    devices: Registry<Option<Device<B>>>,
    scripts: Registry<Script>,
}

impl<B: Bus> Camera<B> {
    pub closed spec fn model_view(&self) -> Seq<char> {
        self.camera_model@
    }

    pub closed spec fn device_names(&self) -> Seq<Seq<char>> {
        self.devices.keys()
    }

    pub closed spec fn script_names(&self) -> Seq<Seq<char>> {
        self.scripts.keys()
    }

    /// The device named `name`.
    pub closed spec fn device(&self, name: Seq<char>) -> Option<Device<B>> {
        match self.devices.lookup(name) {
            Some(Some(d)) => Some(d),
            _ => None,
        }
    }

    /// The script named `name`.
    pub closed spec fn script(&self, name: Seq<char>) -> Option<Script> {
        self.scripts.lookup(name)
    }

    pub closed spec fn wf(&self) -> bool {
        &&& self.devices.wf()
        &&& self.scripts.wf()
        &&& forall|i: int| 0 <= i < self.devices.items().len()
            ==> ((#[trigger] self.devices.items()[i]) matches Some(d) && d.wf())
        &&& forall|i: int| 0 <= i < self.scripts.items().len() ==> (#[trigger] self.scripts.items()[i]).wf()
    }

    /// The camera has script `e.0`, of kind `e.1`, with that kind's declared
    /// fields, all at zero.
    pub open spec fn script_is(&self, e: (Seq<char>, ScriptKind)) -> bool {
        &&& self.script(e.0) is Some
        &&& self.script(e.0)->Some_0.kind_of() == e.1
        &&& self.script(e.0)->Some_0.field_names() == declared_fields(e.1)
        &&& forall|k: Seq<char>| declared_fields(e.1).contains(k)
            ==> #[trigger] self.script(e.0)->Some_0.field_value(k) == Some(0u8)
    }

    /// A device or script exists exactly under the names listed, and is well formed.
    pub proof fn lemma_entries(&self, name: Seq<char>)
        requires
            self.wf(),
        ensures
            self.device(name) is Some <==> self.device_names().contains(name),
            self.device(name) matches Some(d) ==> d.wf(),
            self.script(name) is Some <==> self.script_names().contains(name),
            self.script(name) matches Some(s) ==> s.wf(),
    {
        if self.devices.keys().contains(name) {
            let j = self.devices.index_of(name)->Some_0;
            self.devices.lemma_index_of(j);
            assert(self.devices.items()[j] is Some);
        }
        if self.scripts.keys().contains(name) {
            let j = self.scripts.index_of(name)->Some_0;
            self.scripts.lemma_index_of(j);
            assert(self.scripts.items()[j].wf());
        }
    }

    /// A camera of model `camera_model` without devices, with the model's scripts.
    pub fn new(camera_model: String) -> (r: Self)
        ensures
            r.wf(),
            r.model_view() == camera_model@,
            r.device_names() == Seq::<Seq<char>>::empty(),
            r.script_names() == model_scripts(camera_model@).map_values(|e: (Seq<char>, ScriptKind)| e.0),
            forall|i: int| 0 <= i < model_scripts(camera_model@).len()
                ==> r.script_is(#[trigger] model_scripts(camera_model@)[i]),
    {
        let scripts = scripts_for_model(&camera_model);
        let r = Camera { camera_model, devices: Registry::new(), scripts };
        proof {
            let ms = model_scripts(r.camera_model@);
            assert forall|i: int| 0 <= i < ms.len() implies r.script_is(#[trigger] ms[i]) by {
                assert(r.scripts.keys()[i] == ms[i].0);
                r.scripts.lemma_index_of(i);
            }
        }
        r
    }

    /// Adds `device` under its own name, unless a device of that name is
    /// already there; says whether it was added.
    pub fn add_device(&mut self, device: Device<B>) -> (r: bool)
        requires
            old(self).wf(),
            device.wf(),
        ensures
            final(self).wf(),
            final(self).model_view() == old(self).model_view(),
            final(self).script_names() == old(self).script_names(),
            forall|k: Seq<char>| #[trigger] final(self).script(k) == old(self).script(k),
            r == !old(self).device_names().contains(device.name_view()),
            r ==> final(self).device_names() == old(self).device_names().push(device.name_view()),
            r ==> final(self).device(device.name_view()) == Some(device),
            !r ==> final(self).device_names() == old(self).device_names(),
            forall|k: Seq<char>| k != device.name_view() ==> #[trigger] final(self).device(k) == old(self).device(k),
    {
        let name = device.name().clone();
        let ghost dv = device;
        let r = self.devices.add(name, Some(device));
        proof {
            if r {
                let last = self.devices.keys().len() - 1;
                self.devices.lemma_index_of(last);
                assert forall|k: Seq<char>| k != dv.name_view() implies #[trigger] self.device(k) == old(self).device(k) by {
                    if old(self).devices.keys().contains(k) {
                        let j = old(self).devices.index_of(k)->Some_0;
                        old(self).devices.lemma_index_of(j);
                        self.devices.lemma_index_of(j);
                    } else {
                        assert(!self.devices.keys().contains(k));
                    }
                }
            }
            assert forall|i: int| 0 <= i < self.devices.items().len()
                implies ((#[trigger] self.devices.items()[i]) matches Some(d) && d.wf()) by {
                if i < old(self).devices.items().len() {
                    assert(self.devices.items()[i] == old(self).devices.items()[i]);
                }
            }
        }
        r
    }

    /// Switches every device to a fresh mock memory holding its defaults
    /// (`mock`), or back to its bus.
    pub fn mocked(&mut self, mock: bool)
        requires
            old(self).wf(),
        ensures
            final(self).wf(),
            final(self).model_view() == old(self).model_view(),
            final(self).device_names() == old(self).device_names(),
            final(self).script_names() == old(self).script_names(),
            forall|k: Seq<char>| #[trigger] final(self).script(k) == old(self).script(k),
            forall|k: Seq<char>| #[trigger] final(self).device(k) is Some <==> old(self).device(k) is Some,
            forall|k: Seq<char>| old(self).device(k) is Some ==> {
                let d0 = old(self).device(k)->Some_0;
                let d1 = (#[trigger] final(self).device(k))->Some_0;
                &&& d1.name_view() == d0.name_view()
                &&& d1.register_names() == d0.register_names()
                &&& (forall|g: Seq<char>| #[trigger] d1.default_of(g) == d0.default_of(g))
                &&& d1.is_mocked() == mock
                &&& mock ==> forall|g: Seq<char>| #[trigger] d1.mocked_value(g) == d0.default_of(g)
            },
    {
        let n = self.devices.len();
        let ghost before = *self;
        let mut i: usize = 0;
        while i < n
            invariant
                before == *old(self),
                n == before.devices.keys().len(),
                i <= n,
                self.devices.wf(),
                self.devices.keys() == before.devices.keys(),
                self.devices.items().len() == n,
                self.scripts == before.scripts,
                self.camera_model == before.camera_model,
                forall|j: int| 0 <= j < n ==> ((#[trigger] self.devices.items()[j]) matches Some(d) && d.wf()),
                forall|j: int| i <= j < n ==> #[trigger] self.devices.items()[j] == before.devices.items()[j],
                forall|j: int| 0 <= j < i ==> {
                    let d0 = before.devices.items()[j]->Some_0;
                    let d1 = (#[trigger] self.devices.items()[j])->Some_0;
                    &&& d1.name_view() == d0.name_view()
                    &&& d1.register_names() == d0.register_names()
                    &&& (forall|g: Seq<char>| #[trigger] d1.default_of(g) == d0.default_of(g))
                    &&& d1.is_mocked() == mock
                    &&& mock ==> forall|g: Seq<char>| #[trigger] d1.mocked_value(g) == d0.default_of(g)
                },
            decreases n - i,
        {
            let ghost mid = self.devices;
            let slot = self.devices.get_mut(i);
            match slot {
                Some(d) => {
                    if mock {
                        d.set_mock();
                    } else {
                        d.unset_mock();
                    }
                },
                None => {},
            }
            proof {
                assert(self.devices.items() == mid.items().update(i as int, self.devices.items()[i as int]));
            }
            i = i + 1;
        }
        proof {
            assert forall|k: Seq<char>| #[trigger] self.script(k) == before.script(k) by {}
            assert forall|k: Seq<char>| #[trigger] self.device(k) is Some <==> before.device(k) is Some by {
                if self.devices.keys().contains(k) {
                    let j = self.devices.index_of(k)->Some_0;
                    self.devices.lemma_index_of(j);
                    before.devices.lemma_index_of(j);
                }
            }
            assert forall|k: Seq<char>| before.device(k) is Some implies {
                let d0 = before.device(k)->Some_0;
                let d1 = (#[trigger] self.device(k))->Some_0;
                &&& d1.name_view() == d0.name_view()
                &&& d1.register_names() == d0.register_names()
                &&& (forall|g: Seq<char>| #[trigger] d1.default_of(g) == d0.default_of(g))
                &&& d1.is_mocked() == mock
                &&& mock ==> forall|g: Seq<char>| #[trigger] d1.mocked_value(g) == d0.default_of(g)
            } by {
                let j = self.devices.index_of(k)->Some_0;
                self.devices.lemma_index_of(j);
                before.devices.lemma_index_of(j);
            }
        }
    }

    /// What path `p` denotes in the camera's tree. Below `scripts/<name>`, the
    /// entry `value` is always a leaf: the script's trigger.
    pub open spec fn probe_path(&self, p: Seq<Seq<char>>) -> Answer {
        if p.len() == 0 {
            Answer::Dir
        } else if p[0] == "camera_model"@ {
            if p.len() == 1 { Answer::Leaf } else { Answer::Missing(p[1]) }
        } else if p[0] == "devices"@ {
            if p.len() == 1 {
                Answer::Dir
            } else if !self.device_names().contains(p[1]) {
                Answer::Missing(p[1])
            } else {
                probe(self.device(p[1])->Some_0.register_names(), p.skip(2))
            }
        } else if p[0] == "scripts"@ {
            if p.len() == 1 {
                Answer::Dir
            } else if !self.script_names().contains(p[1]) {
                Answer::Missing(p[1])
            } else if p.len() >= 3 && p[2] == "value"@ {
                Answer::Leaf
            } else {
                probe(self.script(p[1])->Some_0.field_names(), p.skip(2))
            }
        } else {
            Answer::Missing(p[0])
        }
    }

    fn device_index(&self, name: &String) -> (r: Option<usize>)
        requires
            self.wf(),
        ensures
            r is Some <==> self.device_names().contains(name@),
            r matches Some(i) ==> i < self.devices.keys().len() && self.devices.keys()[i as int] == name@
                && self.devices.lookup(name@) == Some(self.devices.items()[i as int]),
    {
        let r = self.devices.find(name);
        proof {
            if r is Some {
                self.devices.lemma_index_of(r->Some_0 as int);
            }
        }
        r
    }

    fn script_index(&self, name: &String) -> (r: Option<usize>)
        requires
            self.wf(),
        ensures
            r is Some <==> self.script_names().contains(name@),
            r matches Some(i) ==> i < self.scripts.keys().len() && self.scripts.keys()[i as int] == name@
                && self.script(name@) == Some(self.scripts.items()[i as int]),
    {
        let r = self.scripts.find(name);
        proof {
            if r is Some {
                self.scripts.lemma_index_of(r->Some_0 as int);
            }
        }
        r
    }

    /// Whether `path` denotes a directory.
    pub fn is_dir(&self, path: &Vec<String>) -> (r: Result<bool, FsError>)
        requires
            self.wf(),
        ensures
            answers(r, self.probe_path(names_view(path@))),
    {
        let ghost p = names_view(path@);
        let n = path.len();
        if n == 0 {
            return Ok(true);
        }
        let first = &path[0];
        if is_name(first, "camera_model") {
            if n == 1 {
                return Ok(false);
            }
            return Err(not_found(&path[1]));
        }
        if is_name(first, "devices") {
            if n == 1 {
                return Ok(true);
            }
            return match self.device_index(&path[1]) {
                None => Err(not_found(&path[1])),
                Some(i) => match self.devices.get(i) {
                    Some(d) => {
                        proof { self.lemma_entries(p[1]); }
                        d.is_dir(path, 2)
                    },
                    None => Err(FsError::InvariantViolation(path[1].clone())),
                },
            };
        }
        if is_name(first, "scripts") {
            if n == 1 {
                return Ok(true);
            }
            return match self.script_index(&path[1]) {
                None => Err(not_found(&path[1])),
                Some(i) => {
                    if n >= 3 && is_name(&path[2], "value") {
                        return Ok(false);
                    }
                    proof { self.lemma_entries(p[1]); }
                    self.scripts.get(i).is_dir(path, 2)
                },
            };
        }
        Err(not_found(first))
    }

    /// Reads the node at `path`: a directory's child names, or a leaf's content.
    pub fn read(&mut self, path: &Vec<String>) -> (r: Result<Entry, FsError>)
        requires
            old(self).wf(),
        ensures
            final(self).wf(),
            final(self).model_view() == old(self).model_view(),
            final(self).device_names() == old(self).device_names(),
            final(self).script_names() == old(self).script_names(),
            forall|k: Seq<char>| #[trigger] final(self).script(k) == old(self).script(k),
            forall|k: Seq<char>| #[trigger] final(self).device(k) is Some <==> old(self).device(k) is Some,
            forall|k: Seq<char>| old(self).device(k) is Some
                ==> (#[trigger] final(self).device(k))->Some_0.same_state(&old(self).device(k)->Some_0),
            ({
                let p = names_view(path@);
                let a = old(self).probe_path(p);
                &&& a matches Answer::Missing(n) ==> fails_not_found(r, n)
                &&& p.len() == 0 ==> gives_listing(r, top_names())
                &&& p == seq!["camera_model"@] ==> gives_content(r, encode_utf8(old(self).model_view()))
                &&& p == seq!["devices"@] ==> gives_listing(r, old(self).device_names())
                &&& p == seq!["scripts"@] ==> gives_listing(r, old(self).script_names())
                &&& p.len() == 2 && p[0] == "devices"@ && old(self).device_names().contains(p[1])
                    ==> gives_listing(r, old(self).device(p[1])->Some_0.register_names())
                &&& p.len() == 3 && p[0] == "devices"@ && a is Leaf
                    && old(self).device(p[1])->Some_0.is_mocked()
                    ==> gives_content(r, decimal_digits(
                        old(self).device(p[1])->Some_0.mocked_value(p[2])->Some_0 as nat))
                &&& p.len() == 3 && p[0] == "devices"@ && a is Leaf && r is Ok
                    ==> exists|v: u64| gives_content(r, #[trigger] decimal_digits(v as nat))
                &&& p.len() == 2 && p[0] == "scripts"@ && old(self).script_names().contains(p[1])
                    ==> gives_listing(r, old(self).script(p[1])->Some_0.field_names().push("value"@))
                &&& p.len() >= 3 && p[0] == "scripts"@ && old(self).script_names().contains(p[1])
                    && p[2] == "value"@ ==> fails_unsupported(r, "read"@)
                &&& p.len() == 3 && p[0] == "scripts"@ && a is Leaf && p[2] != "value"@
                    ==> gives_content(r, decimal_digits(
                        old(self).script(p[1])->Some_0.field_value(p[2])->Some_0 as nat))
            }),
    {
        let ghost p = names_view(path@);
        proof {
            lemma_top_names_distinct();
            assert forall|k: Seq<char>| old(self).device(k) is Some
                implies (#[trigger] self.device(k))->Some_0.same_state(&old(self).device(k)->Some_0) by {}
        }
        let n = path.len();
        if n == 0 {
            let names = vec![
                String::from_str("camera_model"),
                String::from_str("devices"),
                String::from_str("scripts"),
            ];
            assert(names_view(names@) =~= top_names());
            return Ok(Entry::Directory(names));
        }
        let first = &path[0];
        if is_name(first, "camera_model") {
            proof { lemma_top_names_distinct(); }
            if n == 1 {
                let bytes = vstd::slice::slice_to_vec(self.camera_model.as_str().as_bytes());
                return Ok(Entry::Content(bytes));
            }
            return Err(not_found(&path[1]));
        }
        if is_name(first, "devices") {
            if n == 1 {
                return Ok(Entry::Directory(self.devices.names()));
            }
            let name = &path[1];
            return match self.device_index(name) {
                None => Err(not_found(name)),
                Some(i) => {
                    proof { self.lemma_entries(p[1]); }
                    let ghost before = *self;
                    let slot = self.devices.get_mut(i);
                    let r = match slot {
                        Some(d) => d.read(path, 2),
                        None => Err(FsError::InvariantViolation(name.clone())),
                    };
                    proof {
                        self.devices.lemma_update(&before.devices, i as int);
                        assert(self.devices.items()[i as int] is Some);
                        assert forall|j: int| 0 <= j < self.devices.items().len()
                            implies ((#[trigger] self.devices.items()[j]) matches Some(d) && d.wf()) by {
                            if j != i {
                                assert(self.devices.items()[j] == before.devices.items()[j]);
                            }
                        }
                        assert forall|k: Seq<char>| #[trigger] self.device(k) is Some <==> old(self).device(k) is Some by {
                            self.lemma_entries(k);
                            old(self).lemma_entries(k);
                        }
                        assert forall|k: Seq<char>| old(self).device(k) is Some
                            implies (#[trigger] self.device(k))->Some_0.same_state(&old(self).device(k)->Some_0) by {}
                    }
                    r
                },
            };
        }
        if is_name(first, "scripts") {
            if n == 1 {
                return Ok(Entry::Directory(self.scripts.names()));
            }
            let name = &path[1];
            return match self.script_index(name) {
                None => Err(not_found(name)),
                Some(i) => {
                    proof { self.lemma_entries(p[1]); }
                    let script = self.scripts.get(i);
                    if n == 2 {
                        return match script.read(path, 2) {
                            Ok(Entry::Directory(mut names)) => {
                                let ghost before = names@;
                                names.push(String::from_str("value"));
                                assert(names_view(names@) =~= names_view(before).push("value"@));
                                Ok(Entry::Directory(names))
                            },
                            Ok(Entry::Content(_)) => Err(FsError::InvariantViolation(name.clone())),
                            Err(e) => Err(e),
                        };
                    }
                    if is_name(&path[2], "value") {
                        return match script.read_value() {
                            Ok(bytes) => Ok(Entry::Content(bytes)),
                            Err(e) => Err(e),
                        };
                    }
                    script.read(path, 2)
                },
            };
        }
        Err(not_found(first))
    }

    /// Every device is still there, with its name, registers and channel variant.
    pub open spec fn same_devices_shape(&self, before: &Self) -> bool {
        &&& self.device_names() == before.device_names()
        &&& forall|k: Seq<char>| #[trigger] self.device(k) is Some <==> before.device(k) is Some
        &&& forall|k: Seq<char>| before.device(k) is Some
            ==> (#[trigger] self.device(k))->Some_0.same_shape(&before.device(k)->Some_0)
    }

    /// Device `k`'s state is as it was before.
    pub open spec fn device_kept(&self, before: &Self, k: Seq<char>) -> bool {
        before.device(k) is Some ==> {
            &&& self.device(k)->Some_0.same_state(&before.device(k)->Some_0)
            &&& self.device(k)->Some_0.bus_calls() == before.device(k)->Some_0.bus_calls()
        }
    }

    /// The outcome of triggering a script of kind `kind`: its steps run on the
    /// devices `sensor` and `sensor_io`, up to the first that fails, and no
    /// other device is touched.
    pub open spec fn triggered(&self, before: &Self, kind: ScriptKind, r: Result<(), FsError>) -> bool {
        let sn = "sensor"@;
        let ion = "sensor_io"@;
        &&& !before.device_names().contains(sn) ==> fails_not_found(r, sn)
        &&& before.device_names().contains(sn) && !before.device_names().contains(ion)
            ==> fails_not_found(r, ion)
        &&& forall|k: Seq<char>| k != sn && k != ion ==> #[trigger] self.device_kept(before, k)
        &&& !(before.device_names().contains(sn) && before.device_names().contains(ion)) ==> {
            &&& self.device_kept(before, sn)
            &&& self.device_kept(before, ion)
        }
        &&& before.device_names().contains(sn) && before.device_names().contains(ion) ==> {
            let s0 = before.device(sn)->Some_0;
            let i0 = before.device(ion)->Some_0;
            let plan = plan_of(kind);
            let n = ok_run(plan, s0.register_names(), i0.register_names()) as int;
            &&& r is Ok ==> n == plan.len()
            &&& s0.is_mocked() && i0.is_mocked() ==> (r is Ok <==> n == plan.len())
            &&& s0.is_mocked() && i0.is_mocked() ==> forall|k: Seq<char>|
                #[trigger] self.device(sn)->Some_0.mocked_value(k)
                == written(plan.take(n), Target::Sensor, k, s0.mocked_value(k))
            &&& s0.is_mocked() && i0.is_mocked() ==> forall|k: Seq<char>|
                #[trigger] self.device(ion)->Some_0.mocked_value(k)
                == written(plan.take(n), Target::SensorIo, k, i0.mocked_value(k))
            &&& r is Ok ==> self.device(sn)->Some_0.bus_calls() == s0.bus_calls() + plan_calls(
                plan, Target::Sensor, s0.is_mocked(), s0.register_names(), i0.register_names())
            &&& r is Ok ==> self.device(ion)->Some_0.bus_calls() == i0.bus_calls() + plan_calls(
                plan, Target::SensorIo, i0.is_mocked(), s0.register_names(), i0.register_names())
            &&& r is Err ==> exists|m: int| 0 <= m < plan.len() && stopped_at(
                plan, m, &s0, &self.device(sn)->Some_0, &i0, &self.device(ion)->Some_0)
        }
    }

    /// Runs the steps of the script at position `si` on the devices `sensor`
    /// and `sensor_io`.
    fn trigger(&mut self, si: usize) -> (r: Result<(), FsError>)
        requires
            old(self).wf(),
            si < old(self).scripts.keys().len(),
        ensures
            final(self).wf(),
            final(self).model_view() == old(self).model_view(),
            final(self).script_names() == old(self).script_names(),
            final(self).scripts == old(self).scripts,
            final(self).same_devices_shape(old(self)),
            final(self).triggered(old(self), old(self).scripts.items()[si as int].kind_of(), r),
    {
        proof { lemma_target_names_distinct(); }
        let steps = self.scripts.get(si).steps();
        let sname = String::from_str("sensor");
        let ioname = String::from_str("sensor_io");
        let s_i = match self.device_index(&sname) {
            None => {
                proof { self.lemma_keep_all(); }
                return Err(not_found(&sname));
            },
            Some(i) => i,
        };
        let io_i = match self.device_index(&ioname) {
            None => {
                proof { self.lemma_keep_all(); }
                return Err(not_found(&ioname));
            },
            Some(i) => i,
        };
        let ghost before = *self;
        proof {
            before.lemma_entries(sname@);
            before.lemma_entries(ioname@);
            assert(before.devices.items()[s_i as int] is Some);
            assert(before.devices.items()[io_i as int] is Some);
        }
        let io_slot = self.devices.get_mut(io_i);
        let mut io_dev = io_slot.take();
        let ghost mid1 = self.devices;
        let slot = self.devices.get_mut(s_i);
        let r = match (slot, &mut io_dev) {
            (Some(sd), Some(iod)) => run_steps(&steps, sd, iod),
            _ => Err(FsError::InvariantViolation(sname)),
        };
        let ghost mid2 = self.devices;
        let io_back = self.devices.get_mut(io_i);
        *io_back = io_dev;
        proof {
            mid1.lemma_update(&before.devices, io_i as int);
            mid2.lemma_update(&mid1, s_i as int);
            self.devices.lemma_update(&mid2, io_i as int);
            assert(self.devices.items()[s_i as int] == mid2.items()[s_i as int]);
            assert forall|j: int| 0 <= j < self.devices.items().len()
                implies ((#[trigger] self.devices.items()[j]) matches Some(d) && d.wf()) by {
                if j != s_i && j != io_i {
                    assert(self.devices.items()[j] == before.devices.items()[j]);
                }
            }
            assert forall|k: Seq<char>| #[trigger] self.device(k) is Some <==> before.device(k) is Some by {
                self.lemma_entries(k);
                before.lemma_entries(k);
            }
            assert forall|k: Seq<char>| k != sname@ && k != ioname@ implies #[trigger] self.device_kept(&before, k) by {}
            assert forall|k: Seq<char>| before.device(k) is Some
                implies (#[trigger] self.device(k))->Some_0.same_shape(&before.device(k)->Some_0) by {
                if k == sname@ {
                } else if k == ioname@ {
                } else {
                    assert(self.device(k) == before.device(k));
                }
            }
        }
        r
    }

    /// Writes `value` at `path`: sets a device register or a script field,
    /// or, at `scripts/<name>/value`, runs the script with `value` as its
    /// argument, which is not kept.
    pub fn write(&mut self, path: &Vec<String>, value: &Vec<u8>) -> (r: Result<(), FsError>)
        requires
            old(self).wf(),
        ensures
            final(self).wf(),
            final(self).model_view() == old(self).model_view(),
            final(self).script_names() == old(self).script_names(),
            final(self).same_devices_shape(old(self)),
            ({
                let p = names_view(path@);
                let a = old(self).probe_path(p);
                let to_device = p.len() >= 2 && p[0] == "devices"@ && old(self).device_names().contains(p[1]);
                let to_script = p.len() >= 2 && p[0] == "scripts"@ && old(self).script_names().contains(p[1]);
                let to_trigger = to_script && p.len() >= 3 && p[2] == "value"@;
                let to_field = to_script && !to_trigger;
                &&& p.len() == 0 ==> fails_unsupported(r, "write"@)
                &&& p.len() > 0 && p[0] == "camera_model"@ ==> fails_unsupported(r, "write"@)
                &&& p == seq!["devices"@] ==> fails_unsupported(r, "write"@)
                &&& p == seq!["scripts"@] ==> fails_unsupported(r, "write"@)
                &&& p.len() == 2 && (to_device || to_script) ==> fails_unsupported(r, "write"@)
                &&& p.len() > 0 && p[0] != "camera_model"@ ==> (a matches Answer::Missing(n) ==> fails_not_found(r, n))
                &&& !to_field ==> forall|k: Seq<char>| #[trigger] final(self).script(k) == old(self).script(k)
                &&& !to_device && !to_trigger ==> forall|k: Seq<char>| #[trigger] final(self).device_kept(old(self), k)
                &&& to_device ==> forall|k: Seq<char>| k != p[1] ==> #[trigger] final(self).device_kept(old(self), k)
                &&& to_device && !(a is Leaf && decimal_of(value@) is Some) ==> final(self).device_kept(old(self), p[1])
                &&& to_device && a is Leaf && decimal_of(value@) is None ==> fails_unsupported(r, "parse"@)
                &&& to_device && a is Leaf && decimal_of(value@) is Some && old(self).device(p[1])->Some_0.is_mocked() ==> {
                    &&& r is Ok
                    &&& final(self).device(p[1])->Some_0.stored(
                        &old(self).device(p[1])->Some_0, p[2], decimal_of(value@)->Some_0)
                }
                &&& to_device && a is Leaf && decimal_of(value@) is Some && !old(self).device(p[1])->Some_0.is_mocked()
                    ==> final(self).device(p[1])->Some_0.bus_calls() == old(self).device(p[1])->Some_0.bus_calls().push(
                        BusCall::Write(Access::Cooked, p[2], decimal_of(value@)->Some_0))
                &&& to_trigger ==> final(self).triggered(old(self), old(self).script(p[1])->Some_0.kind_of(), r)
                &&& to_field ==> forall|k: Seq<char>| k != p[1] ==> #[trigger] final(self).script(k) == old(self).script(k)
                &&& to_field && p.len() == 3 && a is Leaf ==> {
                    let fits = decimal_of(value@) matches Some(v) && v <= 255;
                    &&& (r is Ok <==> fits)
                    &&& !fits ==> fails_unsupported(r, "parse"@)
                    &&& r is Ok ==> final(self).script(p[1])->Some_0.field_value(p[2])
                        == Some(decimal_of(value@)->Some_0 as u8)
                }
            }),
    {
        let ghost p = names_view(path@);
        proof {
            lemma_top_names_distinct();
            self.lemma_keep_all();
        }
        let n = path.len();
        if n == 0 {
            return Err(unsupported("write", "the camera"));
        }
        let first = &path[0];
        if is_name(first, "camera_model") {
            return Err(unsupported("write", "the camera model"));
        }
        if is_name(first, "devices") {
            if n == 1 {
                return Err(unsupported("write", "the device list"));
            }
            let name = &path[1];
            return match self.device_index(name) {
                None => Err(not_found(name)),
                Some(i) => {
                    proof { self.lemma_entries(p[1]); }
                    let ghost before = *self;
                    let slot = self.devices.get_mut(i);
                    let r = match slot {
                        Some(d) => d.write(path, 2, value),
                        None => Err(FsError::InvariantViolation(name.clone())),
                    };
                    proof {
                        self.devices.lemma_update(&before.devices, i as int);
                        assert(self.devices.items()[i as int] is Some);
                        assert forall|j: int| 0 <= j < self.devices.items().len()
                            implies ((#[trigger] self.devices.items()[j]) matches Some(d) && d.wf()) by {
                            if j != i {
                                assert(self.devices.items()[j] == before.devices.items()[j]);
                            }
                        }
                        assert forall|k: Seq<char>| #[trigger] self.device(k) is Some <==> before.device(k) is Some by {
                            self.lemma_entries(k);
                            before.lemma_entries(k);
                        }
                        assert forall|k: Seq<char>| k != p[1] implies #[trigger] self.device_kept(&before, k) by {}
                        assert forall|k: Seq<char>| before.device(k) is Some
                            implies (#[trigger] self.device(k))->Some_0.same_shape(&before.device(k)->Some_0) by {}
                    }
                    r
                },
            };
        }
        if is_name(first, "scripts") {
            if n == 1 {
                return Err(unsupported("write", "the script list"));
            }
            let name = &path[1];
            return match self.script_index(name) {
                None => Err(not_found(name)),
                Some(i) => {
                    proof { self.lemma_entries(p[1]); }
                    if n >= 3 && is_name(&path[2], "value") {
                        return self.trigger(i);
                    }
                    let ghost before = *self;
                    let script = self.scripts.get_mut(i);
                    let r = script.write(path, 2, value);
                    proof {
                        self.scripts.lemma_update(&before.scripts, i as int);
                        assert forall|j: int| 0 <= j < self.scripts.items().len()
                            implies (#[trigger] self.scripts.items()[j]).wf() by {
                            if j != i {
                                assert(self.scripts.items()[j] == before.scripts.items()[j]);
                            }
                        }
                    }
                    r
                },
            };
        }
        Err(not_found(first))
    }

    /// Splits the camera into its fixed shape and its devices and scripts,
    /// in the order of the shape's names, so that each can be held on its own.
    pub fn into_parts(self) -> (r: (Shape, Vec<Device<B>>, Vec<Script>))
        requires
            self.wf(),
        ensures
            r.0.model_view() == self.model_view(),
            r.0.device_names() == self.device_names(),
            r.0.script_names() == self.script_names(),
            r.1@.len() == self.device_names().len(),
            r.2@.len() == self.script_names().len(),
            forall|i: int| 0 <= i < r.1@.len() ==> Some(#[trigger] r.1@[i]) == self.device(self.device_names()[i])
                && r.1@[i].wf(),
            forall|i: int| 0 <= i < r.2@.len() ==> Some(#[trigger] r.2@[i]) == self.script(self.script_names()[i])
                && r.2@[i].wf(),
    {
        let ghost cam = self;
        let Camera { camera_model, devices, scripts } = self;
        let (dnames, mut slots) = devices.into_parts();
        let (snames, items) = scripts.into_parts();
        let ghost all = slots@;
        let mut out: Vec<Device<B>> = Vec::new();
        while slots.len() > 0
            invariant
                all == cam.devices.items(),
                out@.len() + slots@.len() == all.len(),
                slots@ == all.skip(out@.len() as int),
                forall|i: int| 0 <= i < out@.len() ==> Some(#[trigger] out@[i]) == all[i] && out@[i].wf(),
                forall|i: int| 0 <= i < all.len() ==> ((#[trigger] all[i]) matches Some(d) && d.wf()),
            decreases slots@.len(),
        {
            let ghost k = out@.len();
            let slot = slots.remove(0);
            assert(slot == all[k as int]);
            match slot {
                Some(d) => out.push(d),
                None => {},
            }
            assert(slots@ =~= all.skip(out@.len() as int));
        }
        proof {
            assert forall|i: int| 0 <= i < out@.len() implies Some(#[trigger] out@[i]) == cam.device(cam.device_names()[i])
                && out@[i].wf() by {
                cam.devices.lemma_index_of(i);
            }
            assert forall|i: int| 0 <= i < items@.len() implies Some(#[trigger] items@[i]) == cam.script(cam.script_names()[i])
                && items@[i].wf() by {
                cam.scripts.lemma_index_of(i);
            }
        }
        (Shape::new(camera_model, dnames, snames), out, items)
    }

    proof fn lemma_keep_all(&self)
        ensures
            forall|k: Seq<char>| #[trigger] self.device_kept(self, k),
            self.same_devices_shape(self),
    {
        assert forall|k: Seq<char>| #[trigger] self.device_kept(self, k) by {}
        assert forall|k: Seq<char>| self.device(k) is Some
            implies (#[trigger] self.device(k))->Some_0.same_shape(&self.device(k)->Some_0) by {}
    }
}

} // verus!
