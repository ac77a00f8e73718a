//! A C3D byte source as a whole: its header, its dictionary, its labels
//! and its frames.

use vstd::prelude::*;
use crate::error::ParserError;
use crate::header::{HeaderBlock, BLOCK_SIZE, HEADER_MAGIC};
use crate::labels::{analog_labels_of, labels_of, spec_analog_labels, spec_labels, spec_strings};
use crate::parameter::{
    find_group, spec_group_names, ParameterBlock, ParameterBlockView, PARAMETER_MAGIC,
};
use crate::reader::{spec_calibration, spec_min, C3dReader};
use crate::section::spec_parse_section;

verus! {

/// A byte source with what was read from it.
pub struct C3dAdapter {
    /// The header, once it was read.
    pub header: Option<HeaderBlock>,
    /// The dictionary, once it was read.
    pub parameter: Option<ParameterBlock>,
    /// The bytes of the source.
    pub handle: Vec<u8>,
}

/// The bytes from the block `parameter_start`, counted from 1, to the end;
/// none where the source ends before that block.
pub open spec fn spec_section(bytes: Seq<u8>, parameter_start: u8) -> Seq<u8> {
    bytes.subrange(
        spec_min((parameter_start - 1) * BLOCK_SIZE, bytes.len() as int),
        bytes.len() as int,
    )
}

/// What stands in the way of reading `bytes` as a C3D source, if anything
/// does; else the dictionary.
///
/// The header's magic byte is looked at first, then the header's length,
/// then the block in which the header says the parameter section starts,
/// then the section itself.
pub open spec fn spec_open(bytes: Seq<u8>) -> Result<ParameterBlockView, ParserError> {
    if bytes.len() >= 2 && bytes[1] != HEADER_MAGIC {
        Err(ParserError::UnmatchMagic)
    } else if bytes.len() < BLOCK_SIZE {
        Err(ParserError::Truncated)
    } else if bytes[0] == 0 {
        Err(ParserError::IoError)
    } else {
        spec_parse_section(spec_section(bytes, bytes[0]))
    }
}

impl C3dAdapter {
    /// Takes the bytes of a source; nothing is read yet.
    pub fn new(file: Vec<u8>) -> (r: Result<Self, ParserError>)
        ensures
            r is Ok,
            r->Ok_0.header is None,
            r->Ok_0.parameter is None,
            r->Ok_0.handle == file,
    {
        Ok(C3dAdapter { header: None, parameter: None, handle: file })
    }

    /// Reads the header and the dictionary.
    pub fn construct(self) -> (r: Result<Self, ParserError>)
        ensures
            match r {
                Ok(adapter) => {
                    &&& adapter.handle == self.handle
                    &&& adapter.header is Some
                    &&& adapter.header->0.holds(self.handle@)
                    &&& adapter.header->0.magic_word == HEADER_MAGIC
                    &&& adapter.parameter is Some
                    &&& spec_open(self.handle@) == Ok::<ParameterBlockView, ParserError>(
                        adapter.parameter->0@,
                    )
                    &&& adapter.parameter->0.header.magic_word == PARAMETER_MAGIC
                    &&& adapter.parameter->0@.wf()
                },
                Err(e) => spec_open(self.handle@) == Err::<ParameterBlockView, ParserError>(e),
            },
    {
        let header: HeaderBlock = match HeaderBlock::from_bytes(self.handle.as_slice()) {
            Err(e) => {
                return Err(e);
            },
            Ok(header) => header,
        };
        if header.parameter_start == 0 {
            return Err(ParserError::IoError);
        }
        let len: usize = self.handle.len();
        let start: usize = (header.parameter_start as usize - 1) * BLOCK_SIZE;
        let from: usize = if start < len { start } else { len };
        let parameter: ParameterBlock = match ParameterBlock::from_bytes(
            vstd::slice::slice_subrange(self.handle.as_slice(), from, len),
        ) {
            Err(e) => {
                return Err(e);
            },
            Ok(parameter) => parameter,
        };
        Ok(C3dAdapter { header: Some(header), parameter: Some(parameter), handle: self.handle })
    }

    /// The labels of the points: the label list of `POINT:LABELS`. Nothing
    /// where the dictionary was not read or has no such parameter.
    pub fn get_point_lables(&self) -> (r: Option<Vec<String>>)
        ensures
            match self.parameter {
                None => r is None,
                Some(dictionary) => match dictionary@.spec_get("POINT:LABELS"@) {
                    None => r is None,
                    Some(p) => r is Some && spec_strings(r->0@) == spec_labels(p),
                },
            },
    {
        match &self.parameter {
            None => None,
            Some(dictionary) => match dictionary.get("POINT:LABELS") {
                None => None,
                Some(p) => Some(labels_of(p)),
            },
        }
    }

    /// The labels of the analog channels: the label lists of the parameters
    /// of the group `ANALOG` whose name holds the word `LABEL`, in the
    /// order of these names. Nothing where the dictionary was not read or
    /// has no such group.
    pub fn get_analog_lables(&self) -> (r: Option<Vec<String>>)
        ensures
            match self.parameter {
                None => r is None,
                Some(dictionary) => match spec_group_names(dictionary@.groups).index_of_first(
                    "ANALOG"@,
                ) {
                    None => r is None,
                    Some(g) => r is Some && spec_strings(r->0@) == spec_analog_labels(
                        dictionary@.groups[g].params,
                    ),
                },
            },
    {
        match &self.parameter {
            None => None,
            Some(dictionary) => {
                let name: String = "ANALOG".to_owned();
                match find_group(&dictionary.groups, &name) {
                    None => None,
                    Some(g) => Some(analog_labels_of(&dictionary.groups[g].params)),
                }
            },
        }
    }

    /// A reader at the first frame. It is an error to ask for one before
    /// the header and the dictionary were read.
    pub fn reader<'a>(&'a self) -> (r: Result<C3dReader<'a>, ParserError>)
        ensures
            match (self.header, self.parameter) {
                (Some(header), Some(dictionary)) => if header.data_start == 0 {
                    r is Err && r->Err_0 == ParserError::IoError
                } else {
                    &&& r is Ok
                    &&& *r->Ok_0.header == header
                    &&& *r->Ok_0.parameter == dictionary
                    &&& r->Ok_0.handle@ == self.handle@
                    &&& r->Ok_0.position == (header.data_start - 1) * BLOCK_SIZE
                    &&& r->Ok_0.frame_idx == header.frame_first
                    &&& r->Ok_0.calibration@ == spec_calibration(dictionary@)
                },
                _ => r is Err && r->Err_0 == ParserError::MissingField,
            },
    {
        match &self.header {
            None => Err(ParserError::MissingField),
            Some(header) => match &self.parameter {
                None => Err(ParserError::MissingField),
                Some(parameter) => C3dReader::new(header, parameter, self.handle.as_slice()),
            },
        }
    }
}

} // verus!
