use vstd::prelude::*;

verus! {

/// The final component of a path, as `std::path::Path::file_name` gives it.
pub uninterp spec fn file_name_of(path: Seq<char>) -> Option<Seq<char>>;

/// Relies on `std::path::Path::file_name`: the final component of the path,
/// or none where the path is empty, a root, or ends in `..`. It depends on
/// the text of the path alone; the text is UTF-8, so the conversion back to
/// a `String` is exact.
#[verifier::external_body]
fn file_name(path: &String) -> (r: Option<String>)
    ensures
        match r {
            Some(name) => file_name_of(path@) == Some(name@),
            None => file_name_of(path@) is None,
        },
{
    std::path::Path::new(path.as_str()).file_name().map(|n| n.to_string_lossy().into_owned())
}

/// One chosen data source: a file and the reader that understands it.
#[derive(Clone, Debug)]
pub struct DataPickerState {
    pub path: String,
    pub reader_type: String,
}

/// The name of the default reader.
pub open spec fn default_reader_name() -> Seq<char> {
    seq!['C', 'o', 'i', 'n', 'j', 'a', 'r']
}

impl DataPickerState {
    /// A data source for `path`, read with the default reader.
    pub fn new(path: String) -> (r: DataPickerState)
        ensures
            r.path == path,
            r.reader_type@ == default_reader_name(),
    {
        let reader_type = String::from_str("Coinjar");
        proof {
            reveal_strlit("Coinjar");
        }
        DataPickerState { path, reader_type }
    }

    /// The file's name without its directories, if the path has one.
    pub fn get_path_end(&self) -> (r: Option<String>)
        ensures
            match r {
                Some(name) => file_name_of(self.path@) == Some(name@),
                None => file_name_of(self.path@) is None,
            },
    {
        file_name(&self.path)
    }
}

} // verus!
