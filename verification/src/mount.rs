use vstd::prelude::*;

verus! {

/// One entry of a mount table: where a file system comes from, where it is
/// attached, what kind it is, and the options it is mounted with.
#[derive(Clone, Debug)]
pub struct Mount {
    pub device: String,
    pub mount_point: String,
    pub file_system_type: String,
    pub options: Vec<String>,
}

/// The mathematical value of a [`Mount`]: every text as a sequence of characters.
pub struct MountView {
    pub device: Seq<char>,
    pub mount_point: Seq<char>,
    pub file_system_type: Seq<char>,
    pub options: Seq<Seq<char>>,
}

/// The texts held by a vector of strings, in order.
pub open spec fn texts(v: Seq<String>) -> Seq<Seq<char>> {
    Seq::new(v.len(), |k: int| v[k]@)
}

impl View for Mount {
    type V = MountView;

    open spec fn view(&self) -> MountView {
        MountView {
            device: self.device@,
            mount_point: self.mount_point@,
            file_system_type: self.file_system_type@,
            options: texts(self.options@),
        }
    }
}

impl Default for Mount {
    /// The entry whose texts are all empty and that has no option.
    fn default() -> (m: Mount)
        ensures
            m@.device == Seq::<char>::empty(),
            m@.mount_point == Seq::<char>::empty(),
            m@.file_system_type == Seq::<char>::empty(),
            m@.options == Seq::<Seq<char>>::empty(),
    {
        let m = Mount {
            device: String::new(),
            mount_point: String::new(),
            file_system_type: String::new(),
            options: Vec::new(),
        };
        assert(m@.options =~= Seq::<Seq<char>>::empty());
        m
    }
}

} // verus!
