use vstd::prelude::*;

verus! {

/// One tunable parameter a visualizer manifest declares.
#[derive(Debug)]
pub struct Parameter {
    pub name: String,
    pub description: String,
    pub location: usize,
    pub default_color: u32,
}

/// A visualizer manifest: which executable it belongs to, the checksum the
/// executable had when the manifest was written, a format version, and the
/// declared parameters.  Reading and writing the manifest file, and hashing
/// the executable, are the surrounding application's part.
#[derive(Debug, Clone)]
pub struct Manifest {
    exe_file: String,
    checksum: String,
    version: i32,
    parameters: Vec<Parameter>,
}

impl Clone for Parameter {
    fn clone(&self) -> (r: Self)
        ensures
            r == *self,
    {
        Parameter {
            name: self.name.clone(),
            description: self.description.clone(),
            location: self.location,
            default_color: self.default_color,
        }
    }
}

/// An element-wise copy of a parameter list.
fn clone_parameters(v: &Vec<Parameter>) -> (r: Vec<Parameter>)
    ensures
        r@ == v@,
{
    let mut r: Vec<Parameter> = Vec::new();
    let n = v.len();
    for k in 0..n
        invariant
            n == v@.len(),
            r@ == v@.subrange(0, k as int),
    {
        r.push(v[k].clone());
        proof {
            assert(r@ =~= v@.subrange(0, k + 1));
        }
    }
    proof {
        assert(v@.subrange(0, v@.len() as int) =~= v@);
    }
    r
}

impl Manifest {
    /// The executable the manifest belongs to.
    pub closed spec fn exe_file_spec(&self) -> Seq<char> {
        self.exe_file@
    }

    /// The recorded checksum.
    pub closed spec fn checksum_spec(&self) -> Seq<char> {
        self.checksum@
    }

    /// The format version.
    pub closed spec fn version_spec(&self) -> int {
        self.version as int
    }

    /// The declared parameters.
    pub closed spec fn parameters_spec(&self) -> Seq<Parameter> {
        self.parameters@
    }

    /// Assemble a manifest from its parts.
    pub fn new(exe_file: String, checksum: String, version: i32, parameters: Vec<Parameter>) -> (r:
        Manifest)
        ensures
            r.exe_file_spec() == exe_file@,
            r.checksum_spec() == checksum@,
            r.version_spec() == version as int,
            r.parameters_spec() == parameters@,
    {
        Manifest { exe_file, checksum, version, parameters }
    }

    /// The executable's path, for resolving and hashing the file.
    pub fn exe_file(&self) -> (r: &String)
        ensures
            r@ == self.exe_file_spec(),
    {
        &self.exe_file
    }

    /// The recorded checksum.
    pub fn checksum(&self) -> (r: &String)
        ensures
            r@ == self.checksum_spec(),
    {
        &self.checksum
    }

    /// The manifest as it is saved: everything kept, the checksum replaced by
    /// a freshly computed one.
    pub fn with_checksum(&self, checksum: String) -> (r: Manifest)
        ensures
            r.exe_file_spec() == self.exe_file_spec(),
            r.checksum_spec() == checksum@,
            r.version_spec() == self.version_spec(),
            r.parameters_spec() == self.parameters_spec(),
    {
        Manifest {
            exe_file: self.exe_file.clone(),
            checksum,
            version: self.version,
            parameters: clone_parameters(&self.parameters),
        }
    }
}

} // verus!
