use crate::camera::{is_name, lemma_top_names_distinct, top_names};
use crate::error::{not_found, unsupported, names_view, FsError};
use vstd::prelude::*;
use vstd::string::StringExecFns;
use vstd::utf8::encode_utf8;

verus! {

/// What a request does.
#[derive(Clone, Copy, PartialEq, Eq, Debug)]
pub enum Op {
    IsDir,
    Read,
    Write,
}

/// Where a request goes, decided from the camera's fixed shape alone.
pub enum Route {
    /// The directory test is answered at the top.
    Answer(bool),
    /// A listing built from the shape.
    Listing(Vec<String>),
    /// Leaf content held by the shape.
    Content(Vec<u8>),
    /// To the device at this position, with the path from its third segment on.
    Device(usize),
    /// To the listing of the script at this position, with `value` appended.
    ScriptListing(usize),
    /// To the declared fields of the script at this position, from the third segment on.
    ScriptField(usize),
    /// To the read behaviour of the script at this position.
    ScriptRead(usize),
    /// To the script at the first position, run on the sensor and its control lines at the other two.
    Trigger(usize, usize, usize),
    /// The request fails.
    Fail(FsError),
}

/// The part of a camera that never changes once it is built: its model name
/// and the names of its devices and scripts, in order.
pub struct Shape {
    camera_model: String,
    devices: Vec<String>,
    scripts: Vec<String>,
}

/// The first position of `name` in `names`.
fn position(names: &Vec<String>, name: &String) -> (r: Option<usize>)
    ensures
        r is None <==> !names_view(names@).contains(name@),
        r matches Some(i) ==> i < names@.len() && names@[i as int]@ == name@,
{
    let mut i: usize = 0;
    while i < names.len()
        invariant
            i <= names@.len(),
            forall|j: int| 0 <= j < i ==> names_view(names@)[j] != name@,
        decreases names@.len() - i,
    {
        if names[i] == *name {
            assert(names_view(names@)[i as int] == name@);
            return Some(i);
        }
        i = i + 1;
    }
    None
}

pub open spec fn fails_with_not_found(r: Route, name: Seq<char>) -> bool {
    r matches Route::Fail(e) && e.is_not_found_of(name)
}

pub open spec fn fails_with_unsupported(r: Route, op: Seq<char>) -> bool {
    r matches Route::Fail(e) && e.is_unsupported_op(op)
}

impl Shape {
    pub closed spec fn model_view(&self) -> Seq<char> {
        self.camera_model@
    }

    pub closed spec fn device_names(&self) -> Seq<Seq<char>> {
        names_view(self.devices@)
    }

    pub closed spec fn script_names(&self) -> Seq<Seq<char>> {
        names_view(self.scripts@)
    }

    pub(crate) fn new(camera_model: String, devices: Vec<String>, scripts: Vec<String>) -> (r: Shape)
        ensures
            r.model_view() == camera_model@,
            r.device_names() == names_view(devices@),
            r.script_names() == names_view(scripts@),
    {
        Shape { camera_model, devices, scripts }
    }

    /// Decides where the request `op` on `path` goes.
    pub fn route(&self, path: &Vec<String>, op: Op) -> (r: Route)
        ensures
            ({
                let p = names_view(path@);
                let devs = self.device_names();
                let scr = self.script_names();
                &&& p.len() == 0 ==> match op {
                    Op::IsDir => r == Route::Answer(true),
                    Op::Read => r matches Route::Listing(v) && names_view(v@) == top_names(),
                    Op::Write => fails_with_unsupported(r, "write"@),
                }
                &&& p.len() > 0 && p[0] == "camera_model"@ ==> match op {
                    Op::Write => fails_with_unsupported(r, "write"@),
                    _ => if p.len() > 1 {
                        fails_with_not_found(r, p[1])
                    } else if matches!(op, Op::IsDir) {
                        r == Route::Answer(false)
                    } else {
                        r matches Route::Content(c) && c@ == encode_utf8(self.model_view())
                    },
                }
                &&& p.len() == 1 && p[0] == "devices"@ ==> match op {
                    Op::IsDir => r == Route::Answer(true),
                    Op::Read => r matches Route::Listing(v) && names_view(v@) == devs,
                    Op::Write => fails_with_unsupported(r, "write"@),
                }
                &&& p.len() >= 2 && p[0] == "devices"@ && !devs.contains(p[1]) ==> fails_with_not_found(r, p[1])
                &&& p.len() >= 2 && p[0] == "devices"@ && devs.contains(p[1])
                    ==> (r matches Route::Device(i) && i < devs.len() && devs[i as int] == p[1])
                &&& p.len() == 1 && p[0] == "scripts"@ ==> match op {
                    Op::IsDir => r == Route::Answer(true),
                    Op::Read => r matches Route::Listing(v) && names_view(v@) == scr,
                    Op::Write => fails_with_unsupported(r, "write"@),
                }
                &&& p.len() >= 2 && p[0] == "scripts"@ && !scr.contains(p[1]) ==> fails_with_not_found(r, p[1])
                &&& p.len() >= 2 && p[0] == "scripts"@ && scr.contains(p[1]) ==> {
                    let trig = p.len() >= 3 && p[2] == "value"@;
                    &&& trig && op == Op::IsDir ==> r == Route::Answer(false)
                    &&& trig && op == Op::Read ==> (r matches Route::ScriptRead(i) && i < scr.len() && scr[i as int] == p[1])
                    &&& trig && op == Op::Write && !devs.contains("sensor"@) ==> fails_with_not_found(r, "sensor"@)
                    &&& trig && op == Op::Write && devs.contains("sensor"@) && !devs.contains("sensor_io"@)
                        ==> fails_with_not_found(r, "sensor_io"@)
                    &&& trig && op == Op::Write && devs.contains("sensor"@) && devs.contains("sensor_io"@)
                        ==> (r matches Route::Trigger(i, s, io) && i < scr.len() && scr[i as int] == p[1]
                            && s < devs.len() && devs[s as int] == "sensor"@
                            && io < devs.len() && devs[io as int] == "sensor_io"@)
                    &&& !trig && p.len() == 2 && op == Op::Read
                        ==> (r matches Route::ScriptListing(i) && i < scr.len() && scr[i as int] == p[1])
                    &&& !trig && !(p.len() == 2 && op == Op::Read)
                        ==> (r matches Route::ScriptField(i) && i < scr.len() && scr[i as int] == p[1])
                }
                &&& p.len() > 0 && p[0] != "camera_model"@ && p[0] != "devices"@ && p[0] != "scripts"@
                    ==> fails_with_not_found(r, p[0])
            }),
    {
        let ghost p = names_view(path@);
        proof { lemma_top_names_distinct(); }
        let n = path.len();
        if n == 0 {
            return match op {
                Op::IsDir => Route::Answer(true),
                Op::Read => {
                    let names = vec![
                        String::from_str("camera_model"),
                        String::from_str("devices"),
                        String::from_str("scripts"),
                    ];
                    assert(names_view(names@) =~= top_names());
                    Route::Listing(names)
                },
                Op::Write => Route::Fail(unsupported("write", "the camera")),
            };
        }
        let first = &path[0];
        if is_name(first, "camera_model") {
            return match op {
                Op::Write => Route::Fail(unsupported("write", "the camera model")),
                _ => if n > 1 {
                    Route::Fail(not_found(&path[1]))
                } else if matches!(op, Op::IsDir) {
                    Route::Answer(false)
                } else {
                    Route::Content(vstd::slice::slice_to_vec(self.camera_model.as_str().as_bytes()))
                },
            };
        }
        if is_name(first, "devices") {
            if n == 1 {
                return match op {
                    Op::IsDir => Route::Answer(true),
                    Op::Read => Route::Listing(copy_names(&self.devices)),
                    Op::Write => Route::Fail(unsupported("write", "the device list")),
                };
            }
            return match position(&self.devices, &path[1]) {
                None => Route::Fail(not_found(&path[1])),
                Some(i) => Route::Device(i),
            };
        }
        if is_name(first, "scripts") {
            if n == 1 {
                return match op {
                    Op::IsDir => Route::Answer(true),
                    Op::Read => Route::Listing(copy_names(&self.scripts)),
                    Op::Write => Route::Fail(unsupported("write", "the script list")),
                };
            }
            let i = match position(&self.scripts, &path[1]) {
                None => {
                    return Route::Fail(not_found(&path[1]));
                },
                Some(i) => i,
            };
            if n >= 3 && is_name(&path[2], "value") {
                return match op {
                    Op::IsDir => Route::Answer(false),
                    Op::Read => Route::ScriptRead(i),
                    Op::Write => {
                        let sname = String::from_str("sensor");
                        let ioname = String::from_str("sensor_io");
                        match position(&self.devices, &sname) {
                            None => Route::Fail(not_found(&sname)),
                            Some(s) => match position(&self.devices, &ioname) {
                                None => Route::Fail(not_found(&ioname)),
                                Some(io) => Route::Trigger(i, s, io),
                            },
                        }
                    },
                };
            }
            if n == 2 && matches!(op, Op::Read) {
                return Route::ScriptListing(i);
            }
            return Route::ScriptField(i);
        }
        Route::Fail(not_found(first))
    }
}

fn copy_names(names: &Vec<String>) -> (r: Vec<String>)
    ensures
        names_view(r@) == names_view(names@),
{
    let mut r: Vec<String> = Vec::new();
    let mut i: usize = 0;
    while i < names.len()
        invariant
            i <= names@.len(),
            names_view(r@) == names_view(names@).take(i as int),
        decreases names@.len() - i,
    {
        let ghost before = r@;
        let s = names[i].clone();
        r.push(s);
        assert(names_view(r@) =~= names_view(before).push(names@[i as int]@));
        i = i + 1;
        assert(names_view(r@) =~= names_view(names@).take(i as int));
    }
    assert(names_view(names@).take(i as int) =~= names_view(names@));
    r
}

} // verus!
