use vstd::prelude::*;

verus! {

/// The path of a document does not end with the `.csv` extension.
#[derive(Debug)]
pub struct IncorrectFileType {
    pub message: String,
}

/// An accessor found no record (or no field) to return.
#[derive(Debug)]
pub struct DataNotFound {
    pub message: String,
}

/// The text handed to the parser is not shaped like delimited data.
#[derive(Debug)]
pub struct ParseError {
    pub message: String,
}

/// Every failure that the document operations report.
#[derive(Debug)]
pub enum Error {
    IncorrectFileType(IncorrectFileType),
    FileRead,
    Write,
    DataNotFound(DataNotFound),
    Parse(ParseError),
}

impl IncorrectFileType {
    pub fn new() -> (r: IncorrectFileType)
        ensures
            r.message@ == "Path does not point to a CSV file"@,
    {
        IncorrectFileType { message: String::from_str("Path does not point to a CSV file") }
    }

    /// The message given when the error was made.
    pub fn description(&self) -> (r: &str)
        ensures
            r@ == self.message@,
    {
        self.message.as_str()
    }

    /// A sentence that explains the error to a user.
    pub fn to_string(&self) -> (r: String)
        ensures
            r@ == "Incorrect file type. You must use the \".CSV\" file extension."@,
    {
        String::from_str("Incorrect file type. You must use the \".CSV\" file extension.")
    }
}

impl DataNotFound {
    pub fn new() -> (r: DataNotFound)
        ensures
            r.message@ == "No records to read"@,
    {
        DataNotFound { message: String::from_str("No records to read") }
    }

    /// The message given when the error was made.
    pub fn description(&self) -> (r: &str)
        ensures
            r@ == self.message@,
    {
        self.message.as_str()
    }

    /// A sentence that explains the error to a user.
    pub fn to_string(&self) -> (r: String)
        ensures
            r@ == "No Data found"@,
    {
        String::from_str("No Data found")
    }
}

impl ParseError {
    pub fn new() -> (r: ParseError)
        ensures
            r.message@ == "Unable to parse CSV, please check file"@,
    {
        ParseError { message: String::from_str("Unable to parse CSV, please check file") }
    }

    /// The message given when the error was made.
    pub fn description(&self) -> (r: &str)
        ensures
            r@ == self.message@,
    {
        self.message.as_str()
    }

    /// A sentence that explains the error to a user.
    pub fn to_string(&self) -> (r: String)
        ensures
            r@ == "Unable to parse CSV: the text holds neither a comma nor a newline."@,
    {
        String::from_str("Unable to parse CSV: the text holds neither a comma nor a newline.")
    }
}

} // verus!
