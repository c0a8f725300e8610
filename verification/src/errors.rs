//! Error values of the ingestion pipeline.
//!
//! Fatal conditions surface as `LoadError`; locally recovered conditions
//! (a blank date, an unparsable serving size, an unresolvable nutrient
//! reference) never do, as the driver routines document.

use vstd::prelude::*;

verus! {

/// A fatal condition: the file being processed cannot be loaded.
#[derive(PartialEq, Eq, Structural, Clone, Copy, Debug)]
pub enum LoadError {
    /// A requested column name is missing from a header row.
    ColumnNotFound,
    /// A sort index lies beyond the header row.
    IndexOutOfBounds,
    /// A record is too short for the fields its file type requires.
    ShortRecord,
    /// A field that must be numeric cannot be parsed at all.
    FieldParse,
    /// A measurement names a food that the store does not hold.
    UnknownFood,
    /// A dimension table cannot take another row.
    StoreFull,
    /// A derived amount exceeds what the store's number type holds.
    ValueRange,
    /// A lookup found no matching row.
    NotFound,
    /// A record's field count differs from the header row's.
    RaggedRecord,
}

impl LoadError {
    /// A short description, in place of a display implementation.
    pub fn describe(&self) -> (r: &'static str)
        ensures
            r@ == self.describe_spec(),
    {
        match self {
            LoadError::ColumnNotFound => "column does not exist",
            LoadError::IndexOutOfBounds => "index out of bounds",
            LoadError::ShortRecord => "record has too few fields",
            LoadError::FieldParse => "cannot parse numeric field",
            LoadError::UnknownFood => "cannot get food id",
            LoadError::StoreFull => "store cannot take more rows",
            LoadError::ValueRange => "derived value out of range",
            LoadError::NotFound => "no matching row",
            LoadError::RaggedRecord => "record and header lengths differ",
        }
    }

    pub open spec fn describe_spec(self) -> Seq<char> {
        match self {
            LoadError::ColumnNotFound => "column does not exist"@,
            LoadError::IndexOutOfBounds => "index out of bounds"@,
            LoadError::ShortRecord => "record has too few fields"@,
            LoadError::FieldParse => "cannot parse numeric field"@,
            LoadError::UnknownFood => "cannot get food id"@,
            LoadError::StoreFull => "store cannot take more rows"@,
            LoadError::ValueRange => "derived value out of range"@,
            LoadError::NotFound => "no matching row"@,
            LoadError::RaggedRecord => "record and header lengths differ"@,
        }
    }
}


/// Conditions the browse surface reports to callers.
#[derive(PartialEq, Eq, Structural, Clone, Copy, Debug)]
pub enum CustomError {
    MaxValidationError,
    OrderError,
    OffsetError,
    FoodSortError,
    MinMaxError,
    ReportSortError,
    Unknown,
}

/// The body of an error reply: a status code and two lines of text.
pub struct ErrorResponse {
    code: u16,
    error: String,
    message: String,
}

impl ErrorResponse {
    /// The status code of the reply.
    pub closed spec fn code_spec(self) -> u16 {
        self.code
    }

    /// The short error line of the reply.
    pub closed spec fn error_spec(self) -> Seq<char> {
        self.error@
    }

    /// The detailed message line of the reply.
    pub closed spec fn message_spec(self) -> Seq<char> {
        self.message@
    }

    /// The status code of the reply.
    pub fn code(&self) -> (c: u16)
        ensures
            c == self.code_spec(),
    {
        self.code
    }

    /// The short error line of the reply.
    pub fn error_line(&self) -> (t: &str)
        ensures
            t@ == self.error_spec(),
    {
        self.error.as_str()
    }

    /// The detailed message line of the reply.
    pub fn message_line(&self) -> (t: &str)
        ensures
            t@ == self.message_spec(),
    {
        self.message.as_str()
    }

    pub fn new(e: CustomError) -> (r: Self)
        ensures
            r.code_spec() == (if e == CustomError::Unknown {
                500u16
            } else {
                422u16
            }),
            e != CustomError::Unknown ==> r.error_spec() == "Unprocessable parameter"@,
            e == CustomError::Unknown ==> r.error_spec() == "Internal server error"@,
            e == CustomError::MaxValidationError ==> r.message_spec()
                == "Invalid max parameter. Must be > 0 and <= 150"@,
            e == CustomError::OrderError ==> r.message_spec()
                == "Invalid order parameter. Must be ASC or DESC"@,
            e == CustomError::OffsetError ==> r.message_spec() == "Offset parameter must be >= 0"@,
            e == CustomError::FoodSortError ==> r.message_spec()
                == "Invalid sort parameter. Must be 'description', 'id', 'fdcid' or 'upc'"@,
            e == CustomError::MinMaxError ==> r.message_spec()
                == "Invalid parameter. minimum value must be less than maximum value"@,
            e == CustomError::ReportSortError ==> r.message_spec()
                == "Invalid sor parameter. Must be 'value' or 'portion'"@,
            e == CustomError::Unknown ==> r.message_spec() == "Unknown Internal Error"@,
    {
        match e {
            CustomError::MaxValidationError => Self {
                code: 422,
                error: String::from_str("Unprocessable parameter"),
                message: String::from_str("Invalid max parameter. Must be > 0 and <= 150"),
            },
            CustomError::OrderError => Self {
                code: 422,
                error: String::from_str("Unprocessable parameter"),
                message: String::from_str("Invalid order parameter. Must be ASC or DESC"),
            },
            CustomError::OffsetError => Self {
                code: 422,
                error: String::from_str("Unprocessable parameter"),
                message: String::from_str("Offset parameter must be >= 0"),
            },
            CustomError::FoodSortError => Self {
                code: 422,
                error: String::from_str("Unprocessable parameter"),
                message: String::from_str(
                    "Invalid sort parameter. Must be 'description', 'id', 'fdcid' or 'upc'",
                ),
            },
            CustomError::MinMaxError => Self {
                code: 422,
                error: String::from_str("Unprocessable parameter"),
                message: String::from_str(
                    "Invalid parameter. minimum value must be less than maximum value",
                ),
            },
            CustomError::ReportSortError => Self {
                code: 422,
                error: String::from_str("Unprocessable parameter"),
                message: String::from_str("Invalid sor parameter. Must be 'value' or 'portion'"),
            },
            CustomError::Unknown => Self {
                code: 500,
                error: String::from_str("Internal server error"),
                message: String::from_str("Unknown Internal Error"),
            },
        }
    }
}

} // verus!
