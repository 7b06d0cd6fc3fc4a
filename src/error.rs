use vstd::prelude::*;

verus! {

/// Why an operation on a path failed.
pub enum FsError {
    /// The named device, script, register or field does not exist.
    NotFound(String),
    /// The operation (first) is not allowed on the node described (second).
    Unsupported(String, String),
    /// A register access failed on the communication channel.
    HardwareIo(String),
    /// The routing logic met a node of a shape it did not expect.
    InvariantViolation(String),
}

/// What a read of a node returns.
pub enum Entry {
    /// The names of a directory's children.
    Directory(Vec<String>),
    /// The content of a leaf.
    Content(Vec<u8>),
}

/// The character sequences of a list of names.
pub open spec fn names_view(names: Seq<String>) -> Seq<Seq<char>> {
    names.map_values(|s: String| s@)
}

impl FsError {
    /// The error is a `NotFound` that names exactly `name`.
    pub open spec fn is_not_found_of(&self, name: Seq<char>) -> bool {
        match self {
            FsError::NotFound(n) => n@ == name,
            _ => false,
        }
    }

    /// The error is an `Unsupported` for the operation `op`.
    pub open spec fn is_unsupported_op(&self, op: Seq<char>) -> bool {
        match self {
            FsError::Unsupported(o, _) => o@ == op,
            _ => false,
        }
    }
}

impl Entry {
    /// The entry is a directory whose child names are exactly `names`, in order.
    pub open spec fn is_listing(&self, names: Seq<Seq<char>>) -> bool {
        match self {
            Entry::Directory(v) => names_view(v@) == names,
            Entry::Content(_) => false,
        }
    }

    /// The entry is a leaf holding exactly `bytes`.
    pub open spec fn is_content(&self, bytes: Seq<u8>) -> bool {
        match self {
            Entry::Directory(_) => false,
            Entry::Content(c) => c@ == bytes,
        }
    }
}

/// What a path denotes: a directory, a leaf, or nothing, for want of the named child.
pub enum Answer {
    Dir,
    Leaf,
    Missing(Seq<char>),
}

/// What path `p` denotes below a directory whose children are the leaves `names`.
pub open spec fn probe(names: Seq<Seq<char>>, p: Seq<Seq<char>>) -> Answer {
    if p.len() == 0 {
        Answer::Dir
    } else if !names.contains(p[0]) {
        Answer::Missing(p[0])
    } else if p.len() == 1 {
        Answer::Leaf
    } else {
        Answer::Missing(p[1])
    }
}

/// `r` is the directory test's answer for a node that is `a`.
pub open spec fn answers(r: Result<bool, FsError>, a: Answer) -> bool {
    match a {
        Answer::Dir => r == Ok::<bool, FsError>(true),
        Answer::Leaf => r == Ok::<bool, FsError>(false),
        Answer::Missing(n) => fails_not_found(r, n),
    }
}

/// `r` failed with `NotFound` naming exactly `name`.
pub open spec fn fails_not_found<T>(r: Result<T, FsError>, name: Seq<char>) -> bool {
    match r {
        Err(e) => e.is_not_found_of(name),
        Ok(_) => false,
    }
}

/// `r` failed with `Unsupported` for the operation `op`.
pub open spec fn fails_unsupported<T>(r: Result<T, FsError>, op: Seq<char>) -> bool {
    match r {
        Err(e) => e.is_unsupported_op(op),
        Ok(_) => false,
    }
}

/// `r` is a directory whose child names are exactly `names`, in order.
pub open spec fn gives_listing(r: Result<Entry, FsError>, names: Seq<Seq<char>>) -> bool {
    match r {
        Ok(e) => e.is_listing(names),
        Err(_) => false,
    }
}

/// `r` is a leaf holding exactly `bytes`.
pub open spec fn gives_content(r: Result<Entry, FsError>, bytes: Seq<u8>) -> bool {
    match r {
        Ok(e) => e.is_content(bytes),
        Err(_) => false,
    }
}

/// The error `NotFound` naming a copy of `name`.
pub fn not_found(name: &String) -> (r: FsError)
    ensures
        r.is_not_found_of(name@),
{
    FsError::NotFound(name.clone())
}

/// The error `Unsupported` for operation `op` on the node described by `target`.
pub fn unsupported(op: &str, target: &str) -> (r: FsError)
    ensures
        r.is_unsupported_op(op@),
        r matches FsError::Unsupported(_, t) && t@ == target@,
{
    FsError::Unsupported(op.to_owned(), target.to_owned())
}

} // verus!
