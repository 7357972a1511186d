//! Classified errors: whose fault a failure is, and what the caller can do about it.
use crate::text;
use crate::text::{contains_upper, push_decimal};
use vstd::prelude::*;
use vstd::string::StringExecFns;

verus! {

/// Whose fault an in-flight failure is.
#[derive(Debug, Clone, Copy, PartialEq, Eq, Structural)]
pub enum ErrorClass {
    /// The request can never succeed as sent.
    InvalidRequest,
    /// Transient capacity exhaustion: back off and retry.
    Overloaded,
    /// Engine fault.
    Internal,
}

/// A classified generation error. `code` is the stable machine-readable identifier when one
/// applies; `message` is the human-readable text.
#[derive(Debug)]
pub struct EngineError {
    pub class: ErrorClass,
    pub code: Option<&'static str>,
    pub message: String,
}

/// What a forward pass can fail with.
#[derive(Debug, Clone)]
pub enum GenError {
    /// A configuration that provably cannot run.
    Config(String),
    /// The device is out of memory.
    OutOfMemory,
    /// The KV pool cannot grow.
    PoolExhausted,
    /// Anything else, as the backend words it.
    Backend(String),
}

impl GenError {
    /// The failure in words.
    pub open spec fn words(&self) -> Seq<char> {
        match self {
            GenError::Config(m) => m@,
            GenError::OutOfMemory => "CUDA_ERROR_OUT_OF_MEMORY"@,
            GenError::PoolExhausted => "the KV pool is exhausted"@,
            GenError::Backend(m) => m@,
        }
    }

    /// The failure in words.
    pub fn to_string(&self) -> (s: String)
        ensures
            s@ == self.words(),
    {
        match self {
            GenError::Config(m) => m.clone(),
            GenError::OutOfMemory => "CUDA_ERROR_OUT_OF_MEMORY".to_owned(),
            GenError::PoolExhausted => "the KV pool is exhausted".to_owned(),
            GenError::Backend(m) => m.clone(),
        }
    }
}

/// The code of an error, as text.
pub open spec fn code_text(code: Option<&'static str>) -> Option<Seq<char>> {
    match code {
        Some(c) => Some(c@),
        None => None,
    }
}

/// The text names a CUDA out-of-memory, in any ASCII case.
pub open spec fn reads_oom(message: Seq<char>) -> bool {
    text::holds_upper(message, "OUT_OF_MEMORY"@) || text::holds_upper(message, "OUT OF MEMORY"@)
}

/// What a caller can do about an out-of-memory.
pub open spec fn capacity_text() -> Seq<char> {
    "not enough GPU memory to process this prompt - most often too many or too large image/PDF pages for the memory available on the device. Send fewer or smaller pages (the attachment's `pages` selection, or a lower image `detail`), or retry once the device is less busy"@
}

impl EngineError {
    pub open spec fn is(&self, class: ErrorClass, code: Option<Seq<char>>, message: Seq<char>) -> bool {
        &&& self.class == class
        &&& code_text(self.code) == code
        &&& self.message@ == message
    }

    /// The rejection an out-of-memory forward pass gets.
    pub open spec fn is_capacity(&self) -> bool {
        self.is(ErrorClass::Overloaded, Some("insufficient_memory"@), capacity_text())
    }

    /// What a fault described by `message` becomes.
    pub open spec fn is_fault(&self, message: Seq<char>) -> bool {
        if reads_oom(message) {
            self.is_capacity()
        } else {
            self.is(ErrorClass::Internal, None, message)
        }
    }

    /// What a failed forward pass becomes.
    pub open spec fn is_gen(&self, e: GenError) -> bool {
        match e {
            GenError::OutOfMemory => self.is_capacity(),
            _ => self.is_fault(e.words()),
        }
    }

    /// An engine fault the caller did not cause. A message that names a CUDA out-of-memory is a
    /// capacity event instead, and its text is not passed on.
    pub fn internal(message: &str) -> (e: Self)
        ensures
            e.is_fault(message@),
    {
        if is_cuda_oom(message) {
            return Self::capacity_oom();
        }
        EngineError { class: ErrorClass::Internal, code: None, message: message.to_owned() }
    }

    /// A failed forward pass: out-of-memory by its type, everything else by its words.
    pub fn from_gen(e: &GenError) -> (r: Self)
        ensures
            r.is_gen(*e),
    {
        match e {
            GenError::OutOfMemory => Self::capacity_oom(),
            other => {
                let message = other.to_string();
                Self::internal(message.as_str())
            },
        }
    }

    fn capacity_oom() -> (e: Self)
        ensures
            e.is_capacity(),
    {
        EngineError {
            class: ErrorClass::Overloaded,
            code: Some("insufficient_memory"),
            message: "not enough GPU memory to process this prompt - most often too many or too large image/PDF pages for the memory available on the device. Send fewer or smaller pages (the attachment's `pages` selection, or a lower image `detail`), or retry once the device is less busy".to_owned(),
        }
    }

    /// A request that can never succeed as sent.
    pub fn invalid(msg: &str) -> (e: Self)
        ensures
            e.is(ErrorClass::InvalidRequest, None, msg@),
    {
        EngineError { class: ErrorClass::InvalidRequest, code: None, message: msg.to_owned() }
    }

    /// Load the server cannot take right now.
    pub fn overloaded(msg: &str) -> (e: Self)
        ensures
            e.is(ErrorClass::Overloaded, Some("overloaded"@), msg@),
    {
        EngineError {
            class: ErrorClass::Overloaded,
            code: Some("overloaded"),
            message: msg.to_owned(),
        }
    }

    /// The text of [`EngineError::context_overflow`].
    pub open spec fn overflow_text(got: nat, max: nat) -> Seq<char> {
        "the prompt is "@ + text::decimal(got) + " tokens but the model's context window is "@
            + text::decimal(max)
            + "; reduce the input (or restart with a larger --max-ctx)"@
    }

    /// The rejection a prompt over the model's context window gets.
    pub fn context_overflow(got: usize, max: usize) -> (e: Self)
        ensures
            e.is(
                ErrorClass::InvalidRequest,
                Some("context_length_exceeded"@),
                Self::overflow_text(got as nat, max as nat),
            ),
    {
        let mut message = "the prompt is ".to_owned();
        push_decimal(&mut message, got as u64);
        message.append(" tokens but the model's context window is ");
        push_decimal(&mut message, max as u64);
        message.append("; reduce the input (or restart with a larger --max-ctx)");
        EngineError {
            class: ErrorClass::InvalidRequest,
            code: Some("context_length_exceeded"),
            message,
        }
    }

    /// The text of [`EngineError::context_overflow_images`].
    pub open spec fn images_text(got: nat, max: nat, image_rows: nat, images: nat) -> Seq<char> {
        let plural = if images == 1 {
            ""@
        } else {
            "s"@
        };
        "the prompt needs "@ + text::decimal(got) + " tokens ("@ + text::decimal(image_rows)
            + " of them from "@ + text::decimal(images) + " image"@ + plural
            + ") but the model's context window is "@ + text::decimal(max)
            + "; send fewer or smaller pages (the attachment's `pages` selection, or a lower image `detail`), or restart with a larger --max-ctx"@
    }

    /// The same rejection for a prompt that image rows dominate, naming the levers that move the
    /// number.
    pub fn context_overflow_images(
        got: usize,
        max: usize,
        image_rows: usize,
        images: usize,
    ) -> (e: Self)
        ensures
            e.is(
                ErrorClass::InvalidRequest,
                Some("context_length_exceeded"@),
                Self::images_text(got as nat, max as nat, image_rows as nat, images as nat),
            ),
    {
        let mut message = "the prompt needs ".to_owned();
        push_decimal(&mut message, got as u64);
        message.append(" tokens (");
        push_decimal(&mut message, image_rows as u64);
        message.append(" of them from ");
        push_decimal(&mut message, images as u64);
        message.append(" image");
        message.append(if images == 1 {
            ""
        } else {
            "s"
        });
        message.append(") but the model's context window is ");
        push_decimal(&mut message, max as u64);
        message.append("; send fewer or smaller pages (the attachment's `pages` selection, or a lower image `detail`), or restart with a larger --max-ctx");
        EngineError {
            class: ErrorClass::InvalidRequest,
            code: Some("context_length_exceeded"),
            message,
        }
    }

    /// The error as a client reads it.
    pub fn to_string(&self) -> (s: String)
        ensures
            s@ == self.message@,
    {
        self.message.clone()
    }
}

impl Clone for EngineError {
    fn clone(&self) -> (e: Self)
        ensures
            e.is(self.class, code_text(self.code), self.message@),
    {
        EngineError { class: self.class, code: self.code, message: self.message.clone() }
    }
}

/// The text names a CUDA out-of-memory, in any ASCII case.
pub fn is_cuda_oom(msg: &str) -> (r: bool)
    ensures
        r == reads_oom(msg@),
{
    contains_upper(msg, "OUT_OF_MEMORY") || contains_upper(msg, "OUT OF MEMORY")
}

/// The driver's result code for memory that ran out.
pub const OUT_OF_MEMORY_CODE: u32 = 2;

/// What a driver's result code says of a failed call.
#[derive(Debug, Clone, Copy, PartialEq, Eq, Structural)]
pub enum DriverFault {
    OutOfMemory,
    /// Anything else: the driver's own words say what.
    Driver,
}

/// Classify a failed driver call by its numeric result code alone, never by its words.
pub fn from_driver(code: u32) -> (f: DriverFault)
    ensures
        f == (if code == OUT_OF_MEMORY_CODE {
            DriverFault::OutOfMemory
        } else {
            DriverFault::Driver
        }),
{
    if code == OUT_OF_MEMORY_CODE {
        DriverFault::OutOfMemory
    } else {
        DriverFault::Driver
    }
}

/// However a device runs out of memory, typed or only in its words, the client gets the same
/// retryable error, and none of the driver's text.
pub proof fn law_oom_is_capacity(e: EngineError, g: GenError)
    requires
        e.is_gen(g),
        g is OutOfMemory || reads_oom(g.words()),
    ensures
        e.is_capacity(),
        e.class == ErrorClass::Overloaded,
{
}

/// Every other failed forward pass stays an internal fault, word for word.
pub proof fn law_other_faults_stay_internal(e: EngineError, g: GenError)
    requires
        e.is_gen(g),
        g !is OutOfMemory,
        !reads_oom(g.words()),
    ensures
        e.is(ErrorClass::Internal, None, g.words()),
{
}

/// A message reads as out of memory in any letter case, with blanks or underscores between its
/// words.
pub proof fn law_memory_faults_read_in_any_case(message: Seq<char>, i: int)
    ensures
        text::upper_at(message, "OUT_OF_MEMORY"@, i) || text::upper_at(message, "OUT OF MEMORY"@, i)
            ==> reads_oom(message),
        reads_oom(message) ==> message.len() >= 13,
        reads_oom("CUDA_ERROR_OUT_OF_MEMORY"@),
{
    reveal_strlit("OUT_OF_MEMORY");
    reveal_strlit("OUT OF MEMORY");
    reveal_strlit("CUDA_ERROR_OUT_OF_MEMORY");
    assert(text::upper_at("CUDA_ERROR_OUT_OF_MEMORY"@, "OUT_OF_MEMORY"@, 11));
}

/// An answer on the window names first what the prompt takes and then what the window holds.
pub proof fn law_overflows_name_both_numbers(got: nat, max: nat)
    ensures
        ({
            let s = EngineError::overflow_text(got, max);
            let a = text::decimal(got);
            let b = text::decimal(max);
            &&& s.subrange(14, 14int + a.len()) == a
            &&& s.subrange(56int + a.len(), 56int + a.len() + b.len()) == b
        }),
{
    reveal_strlit("the prompt is ");
    reveal_strlit(" tokens but the model's context window is ");
    let s = EngineError::overflow_text(got, max);
    let a = text::decimal(got);
    let b = text::decimal(max);
    assert(" tokens but the model's context window is "@.len() == 42);
    assert(s.subrange(14, 14int + a.len()) =~= a);
    assert(s.subrange(56int + a.len(), 56int + a.len() + b.len()) =~= b);
}

/// Nothing else reads as out of memory.
pub proof fn law_other_messages_are_no_memory_fault(message: Seq<char>)
    requires
        forall|i: int| !#[trigger] text::upper_at(message, "OUT_OF_MEMORY"@, i),
        forall|i: int| !#[trigger] text::upper_at(message, "OUT OF MEMORY"@, i),
    ensures
        !reads_oom(message),
{
}

} // verus!
