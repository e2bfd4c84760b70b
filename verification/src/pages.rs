//! References to the memory of a page.
use crate::metapage::PageNumber;
use std::collections::HashSet;
use vstd::prelude::*;
use vstd::string::StringExecFns;

verus! {

/// Access to the memory of a page.
pub trait Page {
    /// The bytes of the page.
    spec fn bytes(&self) -> Seq<u8>;

    /// The number of the page.
    spec fn number(&self) -> PageNumber;

    fn memory(&self) -> (mem: &[u8])
        ensures
            mem@ == self.bytes(),
    ;

    fn get_page_number(&self) -> (page_number: PageNumber)
        ensures
            page_number == self.number(),
    ;
}

/// A page that can be read.
pub struct PageImpl<'a> {
    mem: &'a [u8],
    page_number: PageNumber,
}

impl<'a> Page for PageImpl<'a> {
    closed spec fn bytes(&self) -> Seq<u8> {
        self.mem@
    }

    closed spec fn number(&self) -> PageNumber {
        self.page_number
    }

    fn memory(&self) -> (mem: &[u8]) {
        self.mem
    }

    fn get_page_number(&self) -> (page_number: PageNumber) {
        self.page_number
    }
}

/// The decimal digit `d`.
pub open spec fn digit_char(d: int) -> char {
    ('0' as int + d) as char
}

/// `n` in decimal, without leading zeros.
pub open spec fn decimal(n: nat) -> Seq<char>
    decreases n,
{
    if n < 10 {
        seq![digit_char(n as int)]
    } else {
        decimal(n / 10).push(digit_char((n % 10) as int))
    }
}

/// The text of one decimal digit.
fn digit_text(d: u64) -> (text: &'static str)
    requires
        d < 10,
    ensures
        text@ == seq![digit_char(d as int)],
{
    proof {
        reveal_strlit("0");
        reveal_strlit("1");
        reveal_strlit("2");
        reveal_strlit("3");
        reveal_strlit("4");
        reveal_strlit("5");
        reveal_strlit("6");
        reveal_strlit("7");
        reveal_strlit("8");
        reveal_strlit("9");
    }
    let text: &'static str = match d {
        0 => "0",
        1 => "1",
        2 => "2",
        3 => "3",
        4 => "4",
        5 => "5",
        6 => "6",
        7 => "7",
        8 => "8",
        _ => "9",
    };
    assert(text@ =~= seq![digit_char(d as int)]);
    text
}

/// Appends `n` in decimal to `text`.
fn append_decimal(text: &mut String, n: u64)
    ensures
        final(text)@ == old(text)@ + decimal(n as nat),
    decreases n,
{
    if n >= 10 {
        append_decimal(text, n / 10);
    }
    text.append(digit_text(n % 10));
    assert(text@ =~= old(text)@ + decimal(n as nat));
}

impl<'a> PageImpl<'a> {
    /// A reader of the page `page_number`, whose bytes are `mem`.
    pub(crate) fn new(mem: &'a [u8], page_number: PageNumber) -> (page: Self)
        ensures
            page.bytes() == mem@,
            page.number() == page_number,
    {
        PageImpl { mem, page_number }
    }

    /// The page in words: its number.
    pub fn fmt(&self) -> (text: String)
        ensures
            text@ == "PageImpl: page_number="@ + decimal(self.number().0 as nat),
    {
        let mut text: String = String::from_str("PageImpl: page_number=");
        append_decimal(&mut text, self.page_number.0);
        text
    }
}

/// A page that was allocated and can be written. It is open until it is dropped
/// with `PageMut::drop`; `PageMut::suspend` lets go of the reference alone.
pub struct PageMut<'a> {
    mem: &'a mut [u8],
    page_number: PageNumber,
    open_pages: &'a mut HashSet<u64>,
}

impl<'a> Page for PageMut<'a> {
    closed spec fn bytes(&self) -> Seq<u8> {
        self.mem@
    }

    closed spec fn number(&self) -> PageNumber {
        self.page_number
    }

    fn memory(&self) -> (mem: &[u8]) {
        self.mem
    }

    fn get_page_number(&self) -> (page_number: PageNumber) {
        self.page_number
    }
}

impl<'a> PageMut<'a> {
    /// The pages that are open while this reference is held.
    pub closed spec fn open_pages(self) -> Set<u64> {
        self.open_pages@
    }

    /// The memory that this reference was taken from.
    pub closed spec fn memory_source(self) -> &'a mut [u8] {
        self.mem
    }

    /// The set of open pages that this reference was taken from.
    pub closed spec fn open_pages_source(self) -> &'a mut HashSet<u64> {
        self.open_pages
    }

    /// A writer of the page `page_number`, whose bytes are `mem`.
    pub(crate) fn new(
        mem: &'a mut [u8],
        page_number: PageNumber,
        open_pages: &'a mut HashSet<u64>,
    ) -> (page: Self)
        ensures
            page.bytes() == old(mem)@,
            page.number() == page_number,
            page.open_pages() == old(open_pages)@,
            final(page.memory_source())@ == final(mem)@,
            final(page.open_pages_source())@ == final(open_pages)@,
    {
        PageMut { mem, page_number, open_pages }
    }

    /// The bytes of the page, to be changed in place.
    pub fn memory_mut(&mut self) -> (mem: &mut [u8])
        ensures
            mem@ == old(self).bytes(),
            final(self).bytes() == final(mem)@,
            final(self).number() == old(self).number(),
            final(self).open_pages() == old(self).open_pages(),
            final(final(self).memory_source())@ == final(old(self).memory_source())@,
            final(final(self).open_pages_source())@ == final(old(self).open_pages_source())@,
    {
        self.mem
    }

    /// Lets go of the page and leaves it open: its bytes stay as they are, and it
    /// can be taken up again.
    pub fn suspend(self)
        ensures
            final(self.memory_source())@ == self.bytes(),
            final(self.open_pages_source())@ == self.open_pages(),
    {
    }

    /// Closes the page: its bytes stay as they are, and it is open no more.
    pub fn drop(self)
        ensures
            final(self.memory_source())@ == self.bytes(),
            final(self.open_pages_source())@ == self.open_pages().remove(self.number().0),
    {
        broadcast use vstd::std_specs::hash::group_hash_axioms;

        self.open_pages.remove(&self.page_number.0);
    }
}

/// The number that decimal digits spell.
pub open spec fn decimal_value(text: Seq<char>) -> int
    decreases text.len(),
{
    if text.len() == 0 {
        0
    } else {
        10 * decimal_value(text.drop_last()) + (text.last() as int - '0' as int)
    }
}

/// A number in decimal consists of digits, does not start with a zero unless it is
/// zero, and spells the number.
pub proof fn law_decimal(n: nat)
    ensures
        decimal_value(decimal(n)) == n,
        decimal(n).len() >= 1,
        forall|i: int| 0 <= i < decimal(n).len() ==> '0' <= #[trigger] decimal(n)[i] <= '9',
        decimal(n)[0] == '0' <==> n == 0,
    decreases n,
{
    reveal_with_fuel(decimal_value, 2);
    if n >= 10 {
        law_decimal(n / 10);
        assert(decimal(n).drop_last() =~= decimal(n / 10));
        assert(decimal(n)[0] == decimal(n / 10)[0]);
    } else {
        assert(decimal(n).drop_last() =~= Seq::<char>::empty());
    }
}

} // verus!
