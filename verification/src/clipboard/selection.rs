//! Lists of files over an X11 selection: handing one out, and asking for one.

use vstd::prelude::*;

verus! {

/// The number that stands for nothing.
pub const NONE: u32 = 0;

/// The numbers that the server gave to the names in use.
#[derive(Debug, Clone, Copy)]
pub struct Atoms {
    /// `CLIPBOARD`
    pub clipboard: u32,
    /// `x-special/gnome-copied-files`
    pub gnome_files: u32,
    /// `text/uri-list`
    pub uri_list: u32,
    /// `TARGETS`
    pub targets: u32,
    /// `ATOM`
    pub atom: u32,
}

/// What is put into a property of the one who asks.
#[derive(Debug)]
pub enum SelectionData {
    /// Numbers of 32 bits.
    Numbers(Vec<u32>),
    /// Bytes.
    Bytes(Vec<u8>),
}

/// The answer to a request.
#[derive(Debug)]
pub struct SelectionReply {
    /// The type of the data, and the data; `None` where there is none in the form asked for.
    pub data: Option<(u32, SelectionData)>,
    /// The property that is told of; [`NONE`] says that the request was refused.
    pub property: u32,
}

/// The answer of the clipboard's owner to a request for `target`, to be put into `property`. Asked for
/// the forms it has, it names the list of addresses; asked for that, it hands out `list`; anything else
/// is refused. `None` where the request is for another selection.
pub fn on_request(
    atoms: &Atoms,
    list: &Vec<u8>,
    selection: u32,
    target: u32,
    property: u32,
) -> (r: Option<SelectionReply>)
    ensures
        r is None <==> selection != atoms.clipboard,
        r matches Some(a) ==> if target == atoms.targets {
            &&& a.data matches Some((kind, SelectionData::Numbers(n)))
            &&& kind == atoms.atom
            &&& n@ == seq![atoms.uri_list]
            &&& a.property == property
        } else if target == atoms.uri_list {
            &&& a.data matches Some((kind, SelectionData::Bytes(b)))
            &&& kind == atoms.uri_list
            &&& b@ == list@
            &&& a.property == property
        } else {
            a.data is None && a.property == NONE
        },
{
    if selection != atoms.clipboard {
        return None;
    }
    if target == atoms.targets {
        let mut forms: Vec<u32> = Vec::new();
        forms.push(atoms.uri_list);
        assert(forms@ =~= seq![atoms.uri_list]);
        Some(SelectionReply { data: Some((atoms.atom, SelectionData::Numbers(forms))), property })
    } else if target == atoms.uri_list {
        let bytes = vstd::slice::slice_to_vec(list.as_slice());
        Some(SelectionReply { data: Some((atoms.uri_list, SelectionData::Bytes(bytes))), property })
    } else {
        Some(SelectionReply { data: None, property: NONE })
    }
}

/// The forms in which a list of files is asked for, one after the other.
pub open spec fn asked_forms(atoms: Atoms) -> Seq<u32> {
    seq![atoms.gnome_files, atoms.uri_list]
}

/// A query for a list of files.
pub struct FileQuery {
    /// The number of forms that were asked for.
    pub asked: usize,
}

impl FileQuery {
    /// A query that has not asked yet. `None` where nobody owns the clipboard: there is nothing to ask
    /// for.
    pub fn begin(owner: u32) -> (r: Option<Self>)
        ensures
            r is None <==> owner == NONE,
            r matches Some(q) ==> q.asked == 0,
    {
        if owner == NONE {
            None
        } else {
            Some(FileQuery { asked: 0 })
        }
    }

    /// The next form to ask for; `None` where there is none left and the clipboard holds no files.
    pub fn next_form(&mut self, atoms: &Atoms) -> (r: Option<u32>)
        ensures
            if old(self).asked < asked_forms(*atoms).len() {
                &&& r == Some(asked_forms(*atoms)[old(self).asked as int])
                &&& final(self).asked == old(self).asked + 1
            } else {
                r is None && final(self).asked == old(self).asked
            },
    {
        let form: u32 = match self.asked {
            0 => atoms.gnome_files,
            1 => atoms.uri_list,
            _ => {
                return None;
            },
        };
        self.asked = self.asked + 1;
        Some(form)
    }

    /// The owner has answered: whether the property is to be read. Where it is not, the next form is
    /// asked for.
    pub fn on_answer(&self, atoms: &Atoms, selection: u32, property: u32) -> (r: bool)
        ensures
            r == (selection == atoms.clipboard && property != NONE),
    {
        selection == atoms.clipboard && property != NONE
    }
}

/// A list of files is asked for in the form of GNOME first and as plain addresses then, and in no other.
pub proof fn law_lists_are_asked_for_in_two_forms(a: Atoms)
    ensures
        asked_forms(a).len() == 2,
        asked_forms(a)[0] == a.gnome_files,
        asked_forms(a)[1] == a.uri_list,
{
}

} // verus!
