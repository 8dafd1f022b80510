//! A builder for kernel command line strings that validates the string as it is built.
use vstd::prelude::*;
use vstd::string::*;

verus! {

broadcast use vstd::string::is_ascii_spec_bytes;

/// The error type for command line building operations.
#[derive(Clone, Copy, Debug, PartialEq, Eq, Structural)]
pub enum Error {
    /// Key/value operation would have had an equals sign in it.
    HasEquals,
    /// Key/value operation would have had a space in it.
    HasSpace,
    /// Operation would have resulted in a non-printable ASCII character.
    InvalidAscii,
    /// Operation would have made the command line too large.
    TooLarge,
}

/// A printable ASCII character: from the space up to the tilde.
pub open spec fn printable(c: char) -> bool {
    ' ' <= c && c <= '~'
}

/// Every character of `s` is printable ASCII.
pub open spec fn all_printable(s: Seq<char>) -> bool {
    forall|i: int| 0 <= i < s.len() ==> printable(#[trigger] s[i])
}

/// Why `s` cannot be a key or a value; `None` when it can.
pub open spec fn element_fault(s: Seq<char>) -> Option<Error> {
    if !all_printable(s) {
        Some(Error::InvalidAscii)
    } else if s.contains(' ') {
        Some(Error::HasSpace)
    } else if s.contains('=') {
        Some(Error::HasEquals)
    } else {
        None
    }
}

/// The line after appending `s`, separated by a space from what was there.
pub open spec fn appended(line: Seq<char>, s: Seq<char>) -> Seq<char> {
    if line.len() == 0 {
        s
    } else {
        line + seq![' '] + s
    }
}

/// Whether appending `more` characters (and a separating space, if needed) leaves the line
/// shorter than `capacity`, which counts the nul terminator.
pub open spec fn fits(line: Seq<char>, more: int, capacity: int) -> bool {
    line.len() + more + (if line.len() == 0 {
        0int
    } else {
        1int
    }) < capacity
}

/// Whether `c` is a printable ASCII character.
pub fn valid_char(c: char) -> (r: bool)
    ensures
        r == printable(c),
{
    c >= ' ' && c <= '~'
}

/// Checks that every character of `s` is printable ASCII; returns the byte length of `s`,
/// which then equals its number of characters.
fn printable_len(s: &str) -> (r: Option<usize>)
    ensures
        r is Some <==> all_printable(s@),
        r is Some ==> r->Some_0 == s@.len(),
{
    if !s.is_ascii() {
        proof {
            let i = choose|i: int| 0 <= i < s@.len() && !('\0' <= #[trigger] s@[i] <= '\u{7f}');
            assert(!printable(s@[i]));
        }
        return None;
    }
    let b = s.as_bytes();
    proof {
        vstd::utf8::is_ascii_chars_encode_utf8(s@);
    }
    let n = b.len();
    let mut i: usize = 0;
    while i < n
        invariant
            i <= n,
            n == b@.len(),
            n == s@.len(),
            forall|j: int| 0 <= j < s@.len() ==> s@[j] as u8 == b@[j],
            forall|j: int| 0 <= j < s@.len() ==> ('\0' <= #[trigger] s@[j] <= '\u{7f}'),
            forall|j: int| 0 <= j < i ==> printable(#[trigger] s@[j]),
        decreases n - i,
    {
        let c = b[i] as char;
        assert(c == s@[i as int]) by {
            assert('\0' <= s@[i as int] <= '\u{7f}');
        }
        if !valid_char(c) {
            return None;
        }
        i = i + 1;
    }
    Some(n)
}

/// Checks that `s` contains the character `c`, which is printable ASCII.
fn contains_char(s: &str, c: char) -> (r: bool)
    requires
        all_printable(s@),
        printable(c),
    ensures
        r == s@.contains(c),
{
    let b = s.as_bytes();
    proof {
        vstd::utf8::is_ascii_chars_encode_utf8(s@);
    }
    let n = b.len();
    let mut i: usize = 0;
    while i < n
        invariant
            i <= n,
            n == b@.len(),
            n == s@.len(),
            all_printable(s@),
            printable(c),
            forall|j: int| 0 <= j < s@.len() ==> s@[j] as u8 == b@[j],
            forall|j: int| 0 <= j < i ==> s@[j] != c,
        decreases n - i,
    {
        assert(printable(s@[i as int]));
        if b[i] as char == c {
            assert(s@[i as int] == c);
            return true;
        }
        i = i + 1;
    }
    false
}

/// Checks that every character of `s` is printable ASCII.
pub fn valid_str(s: &str) -> (r: Result<(), Error>)
    ensures
        r is Ok <==> all_printable(s@),
        r is Err ==> r == Err::<(), Error>(Error::InvalidAscii),
{
    match printable_len(s) {
        Some(_) => Ok(()),
        None => Err(Error::InvalidAscii),
    }
}

/// Checks that `s` can be a key or a value: printable ASCII, with no space and no equals
/// sign.
pub fn valid_element(s: &str) -> (r: Result<(), Error>)
    ensures
        r == (match element_fault(s@) {
            Some(e) => Err::<(), Error>(e),
            None => Ok(()),
        }),
{
    if printable_len(s).is_none() {
        Err(Error::InvalidAscii)
    } else if contains_char(s, ' ') {
        Err(Error::HasSpace)
    } else if contains_char(s, '=') {
        Err(Error::HasEquals)
    } else {
        Ok(())
    }
}

/// A builder for a kernel command line string that validates the string as it is being
/// built.
pub struct Cmdline {
    line: String,
    capacity: usize,
}

impl Cmdline {
    /// The characters of the line built so far.
    pub closed spec fn line(&self) -> Seq<char> {
        self.line@
    }

    /// The capacity the builder was made with, nul terminator included.
    pub closed spec fn spec_capacity(&self) -> nat {
        self.capacity as nat
    }

    /// The builder's invariant: the line is printable ASCII and, with its nul terminator,
    /// fits in the capacity.
    pub closed spec fn wf(&self) -> bool {
        all_printable(self.line@) && self.line@.len() < self.capacity
    }

    /// Constructs an empty command line with the given capacity, which includes the nul
    /// terminator and must not be zero.
    pub fn new(capacity: usize) -> (r: Cmdline)
        requires
            capacity != 0,
        ensures
            r.wf(),
            r.line() == Seq::<char>::empty(),
            r.line().len() < r.spec_capacity(),
            r.spec_capacity() == capacity,
    {
        Cmdline { line: String::new(), capacity }
    }

    /// Checks that appending `more` characters keeps the line, its separating space and
    /// the nul terminator within the capacity.
    fn has_capacity(&self, more: usize) -> (r: Result<(), Error>)
        requires
            self.wf(),
        ensures
            r is Ok <==> fits(self.line(), more as int, self.spec_capacity() as int),
            r is Err ==> r == Err::<(), Error>(Error::TooLarge),
    {
        let len = match printable_len(self.line.as_str()) {
            Some(n) => n,
            None => return Err(Error::TooLarge),
        };
        let needs_space: usize = if len == 0 {
            0
        } else {
            1
        };
        if more >= self.capacity || len >= self.capacity - more || needs_space >= self.capacity
            - more - len {
            Err(Error::TooLarge)
        } else {
            Ok(())
        }
    }

    /// Starts a new element: a space separates it from what came before.
    fn start_push(&mut self)
        ensures
            final(self).capacity == old(self).capacity,
            final(self).line() == (if old(self).line().len() == 0 {
                old(self).line()
            } else {
                old(self).line() + seq![' ']
            }),
    {
        if !self.line.as_str().is_empty() {
            proof {
                reveal_strlit(" ");
            }
            self.line.append(" ");
        }
    }

    /// Validates and inserts a `key=value` pair into this command line.
    pub fn insert(&mut self, key: &str, val: &str) -> (r: Result<(), Error>)
        requires
            old(self).wf(),
        ensures
            final(self).wf(),
            final(self).spec_capacity() == old(self).spec_capacity(),
            all_printable(final(self).line()),
            final(self).line().len() < final(self).spec_capacity(),
            r == (if element_fault(key@) is Some {
                Err::<(), Error>(element_fault(key@)->Some_0)
            } else if element_fault(val@) is Some {
                Err::<(), Error>(element_fault(val@)->Some_0)
            } else if !fits(
                old(self).line(),
                (key@.len() + val@.len() + 1) as int,
                old(self).spec_capacity() as int,
            ) {
                Err::<(), Error>(Error::TooLarge)
            } else {
                Ok::<(), Error>(())
            }),
            r is Ok ==> final(self).line() == appended(old(self).line(), key@ + seq!['='] + val@),
            r is Err ==> final(self).line() == old(self).line(),
    {
        valid_element(key)?;
        valid_element(val)?;
        let k = match printable_len(key) {
            Some(n) => n,
            None => return Err(Error::InvalidAscii),
        };
        let v = match printable_len(val) {
            Some(n) => n,
            None => return Err(Error::InvalidAscii),
        };
        if k >= usize::MAX - v {
            return Err(Error::TooLarge);
        }
        self.has_capacity(k + v + 1)?;
        let ghost before = self.line@;
        self.start_push();
        self.line.append(key);
        proof {
            reveal_strlit("=");
        }
        self.line.append("=");
        self.line.append(val);
        proof {
            assert(appended(before, key@ + seq!['='] + val@) =~= self.line@);
            assert(all_printable(self.line@)) by {
                assert(printable('='));
                assert(printable(' '));
            }
        }
        Ok(())
    }

    /// Validates and inserts a string to the end of the current command line.
    pub fn insert_str(&mut self, slug: &str) -> (r: Result<(), Error>)
        requires
            old(self).wf(),
        ensures
            final(self).wf(),
            final(self).spec_capacity() == old(self).spec_capacity(),
            all_printable(final(self).line()),
            final(self).line().len() < final(self).spec_capacity(),
            r == (if !all_printable(slug@) {
                Err::<(), Error>(Error::InvalidAscii)
            } else if !fits(old(self).line(), slug@.len() as int, old(self).spec_capacity() as int) {
                Err::<(), Error>(Error::TooLarge)
            } else {
                Ok::<(), Error>(())
            }),
            r is Ok ==> final(self).line() == appended(old(self).line(), slug@),
            r is Err ==> final(self).line() == old(self).line(),
    {
        valid_str(slug)?;
        let n = match printable_len(slug) {
            Some(n) => n,
            None => return Err(Error::InvalidAscii),
        };
        self.has_capacity(n)?;
        let ghost before = self.line@;
        self.start_push();
        self.line.append(slug);
        proof {
            assert(appended(before, slug@) =~= self.line@);
            assert(printable(' '));
        }
        Ok(())
    }

    /// Returns the command line built so far, without nul termination.
    pub fn as_str(&self) -> (r: &str)
        ensures
            r@ == self.line(),
    {
        self.line.as_str()
    }

    /// Returns the bytes of the command line built so far, without nul termination.
    pub fn into_bytes(self) -> (r: Vec<u8>)
        requires
            self.wf(),
        ensures
            r@.len() == self.line().len(),
            forall|i: int| 0 <= i < r@.len() ==> r@[i] == self.line()[i] as u8,
    {
        let b = self.line.as_str().as_bytes();
        proof {
            vstd::utf8::is_ascii_chars_encode_utf8(self.line@);
        }
        let mut out: Vec<u8> = Vec::new();
        let mut i: usize = 0;
        while i < b.len()
            invariant
                i <= b@.len(),
                b@.len() == self.line@.len(),
                out@.len() == i,
                forall|j: int| 0 <= j < self.line@.len() ==> self.line@[j] as u8 == b@[j],
                forall|j: int| 0 <= j < i ==> out@[j] == self.line@[j] as u8,
            decreases b.len() - i,
        {
            out.push(b[i]);
            i = i + 1;
        }
        out
    }
}

} // verus!
