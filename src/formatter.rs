use vstd::prelude::*;
use vstd::string::StringSliceAdditionalSpecFns;

verus! {

pub const OPEN_ARRAY: u8 = 91;
pub const CLOSE_ARRAY: u8 = 93;
pub const OPEN_OBJECT: u8 = 123;
pub const CLOSE_OBJECT: u8 = 125;
pub const COMMA: u8 = 44;
pub const COLON: u8 = 58;

/// `n` copies of `s`, one after another.
pub open spec fn repeat(s: Seq<u8>, n: nat) -> Seq<u8>
    decreases n,
{
    if n == 0 { seq![] } else { repeat(s, (n - 1) as nat) + s }
}

/// The bytes of an optional string; nothing when it is absent.
pub open spec fn opt_bytes(o: Option<&str>) -> Seq<u8> {
    match o {
        Some(s) => s.spec_bytes(),
        None => seq![],
    }
}

/// A streaming JSON layout with optional indentation, space after a colon and
/// line break before each element. With all three absent the output is
/// compact: no whitespace is inserted.
pub struct RedisJsonFormatter<'a> {
    /// Current nesting depth.
    pub current_indent: usize,
    /// Whether the innermost open container has emitted a child yet.
    pub has_value: bool,
    pub indent: Option<&'a str>,
    pub space: Option<&'a str>,
    pub newline: Option<&'a str>,
}

impl<'a> RedisJsonFormatter<'a> {
    /// What starts a new line at the current depth: the line break, then one
    /// indentation per level.
    pub open spec fn line_break(&self) -> Seq<u8> {
        opt_bytes(self.newline) + repeat(opt_bytes(self.indent), self.current_indent as nat)
    }

    /// What follows the colon of an object entry.
    pub open spec fn after_colon(&self) -> Seq<u8> {
        opt_bytes(self.space)
    }

    pub fn new(indent: Option<&'a str>, space: Option<&'a str>, newline: Option<&'a str>) -> (r:
        Self)
        ensures
            r.current_indent == 0,
            !r.has_value,
            r.indent == indent,
            r.space == space,
            r.newline == newline,
    {
        RedisJsonFormatter { current_indent: 0, has_value: false, indent, space, newline }
    }

    fn write_str(out: &mut Vec<u8>, s: &str)
        ensures
            final(out)@ == old(out)@ + s.spec_bytes(),
    {
        let b = s.as_bytes();
        let mut i: usize = 0;
        while i < b.len()
            invariant
                b@ == s.spec_bytes(),
                i <= b@.len(),
                out@ == old(out)@ + b@.subrange(0, i as int),
            decreases b@.len() - i,
        {
            out.push(b[i]);
            i = i + 1;
            proof {
                assert(b@.subrange(0, i as int) =~= b@.subrange(0, i - 1) + seq![b@[i - 1]]);
            }
        }
        proof {
            assert(b@.subrange(0, b@.len() as int) =~= b@);
        }
    }

    /// Writes the line break, then the indentation of the current depth.
    pub fn new_line(&self, out: &mut Vec<u8>)
        ensures
            final(out)@ == old(out)@ + self.line_break(),
    {
        if let Some(n) = self.newline {
            Self::write_str(out, n);
        }
        let ghost start = out@;
        if let Some(s) = self.indent {
            let mut k: usize = 0;
            while k < self.current_indent
                invariant
                    k <= self.current_indent,
                    self.indent == Some(s),
                    out@ == start + repeat(s.spec_bytes(), k as nat),
                decreases self.current_indent - k,
            {
                Self::write_str(out, s);
                k = k + 1;
                proof {
                    assert(start + repeat(s.spec_bytes(), k as nat) =~= start + repeat(
                        s.spec_bytes(),
                        (k - 1) as nat,
                    ) + s.spec_bytes());
                }
            }
        } else {
            proof {
                lemma_repeat_empty(self.current_indent as nat);
                assert(out@ =~= start + repeat(opt_bytes(self.indent), self.current_indent as nat));
            }
        }
        proof {
            assert(out@ =~= old(out)@ + self.line_break());
        }
    }

    /// Opens an array one level deeper.
    pub fn begin_array(&mut self, out: &mut Vec<u8>)
        requires
            old(self).current_indent < usize::MAX,
        ensures
            final(self).current_indent == old(self).current_indent + 1,
            !final(self).has_value,
            final(self).indent == old(self).indent,
            final(self).space == old(self).space,
            final(self).newline == old(self).newline,
            final(out)@ == old(out)@ + seq![OPEN_ARRAY],
    {
        self.current_indent = self.current_indent + 1;
        self.has_value = false;
        out.push(OPEN_ARRAY);
    }

    /// Closes an array; a line break comes first only if it has an element.
    pub fn end_array(&mut self, out: &mut Vec<u8>)
        requires
            old(self).current_indent > 0,
        ensures
            final(self).current_indent == old(self).current_indent - 1,
            final(self).has_value == old(self).has_value,
            final(self).indent == old(self).indent,
            final(self).space == old(self).space,
            final(self).newline == old(self).newline,
            final(out)@ == old(out)@ + (if old(self).has_value {
                final(self).line_break()
            } else {
                seq![]
            }) + seq![CLOSE_ARRAY],
    {
        self.current_indent = self.current_indent - 1;
        let ghost mid = out@;
        if self.has_value {
            self.new_line(out);
        } else {
            proof {
                assert(out@ =~= mid + seq![]);
            }
        }
        out.push(CLOSE_ARRAY);
    }

    /// Starts an array element: a comma unless it is the first, then a line
    /// break.
    pub fn begin_array_value(&mut self, out: &mut Vec<u8>, first: bool)
        ensures
            *final(self) == *old(self),
            final(out)@ == old(out)@ + (if first { seq![] } else { seq![COMMA] })
                + old(self).line_break(),
    {
        let ghost start = out@;
        if !first {
            out.push(COMMA);
        } else {
            proof {
                assert(out@ =~= start + seq![]);
            }
        }
        self.new_line(out);
    }

    /// Ends an array element.
    pub fn end_array_value(&mut self, out: &mut Vec<u8>)
        ensures
            final(self).has_value,
            final(self).current_indent == old(self).current_indent,
            final(self).indent == old(self).indent,
            final(self).space == old(self).space,
            final(self).newline == old(self).newline,
            final(out)@ == old(out)@,
    {
        self.has_value = true;
    }

    /// Opens an object one level deeper.
    pub fn begin_object(&mut self, out: &mut Vec<u8>)
        requires
            old(self).current_indent < usize::MAX,
        ensures
            final(self).current_indent == old(self).current_indent + 1,
            !final(self).has_value,
            final(self).indent == old(self).indent,
            final(self).space == old(self).space,
            final(self).newline == old(self).newline,
            final(out)@ == old(out)@ + seq![OPEN_OBJECT],
    {
        self.current_indent = self.current_indent + 1;
        self.has_value = false;
        out.push(OPEN_OBJECT);
    }

    /// Closes an object; a line break comes first only if it has an entry.
    pub fn end_object(&mut self, out: &mut Vec<u8>)
        requires
            old(self).current_indent > 0,
        ensures
            final(self).current_indent == old(self).current_indent - 1,
            final(self).has_value == old(self).has_value,
            final(self).indent == old(self).indent,
            final(self).space == old(self).space,
            final(self).newline == old(self).newline,
            final(out)@ == old(out)@ + (if old(self).has_value {
                final(self).line_break()
            } else {
                seq![]
            }) + seq![CLOSE_OBJECT],
    {
        self.current_indent = self.current_indent - 1;
        let ghost mid = out@;
        if self.has_value {
            self.new_line(out);
        } else {
            proof {
                assert(out@ =~= mid + seq![]);
            }
        }
        out.push(CLOSE_OBJECT);
    }

    /// Starts an object key: a comma unless it is the first, then a line break.
    pub fn begin_object_key(&mut self, out: &mut Vec<u8>, first: bool)
        ensures
            *final(self) == *old(self),
            final(out)@ == old(out)@ + (if first { seq![] } else { seq![COMMA] })
                + old(self).line_break(),
    {
        let ghost start = out@;
        if !first {
            out.push(COMMA);
        } else {
            proof {
                assert(out@ =~= start + seq![]);
            }
        }
        self.new_line(out);
    }

    /// Starts an object value: a colon, then the configured space.
    pub fn begin_object_value(&mut self, out: &mut Vec<u8>)
        ensures
            *final(self) == *old(self),
            final(out)@ == old(out)@ + seq![COLON] + old(self).after_colon(),
    {
        out.push(COLON);
        let ghost mid = out@;
        if let Some(s) = self.space {
            Self::write_str(out, s);
        } else {
            proof {
                assert(out@ =~= mid + seq![]);
            }
        }
    }

    /// Ends an object value.
    pub fn end_object_value(&mut self, out: &mut Vec<u8>)
        ensures
            final(self).has_value,
            final(self).current_indent == old(self).current_indent,
            final(self).indent == old(self).indent,
            final(self).space == old(self).space,
            final(self).newline == old(self).newline,
            final(out)@ == old(out)@,
    {
        self.has_value = true;
    }
}

/// With no indentation, no space and no line break configured, the
/// formatter inserts no whitespace: a line break and what follows a colon are
/// both empty, at every depth.
pub proof fn lemma_compact_inserts_nothing(f: RedisJsonFormatter)
    requires
        f.indent is None,
        f.space is None,
        f.newline is None,
    ensures
        f.line_break() == Seq::<u8>::empty(),
        f.after_colon() == Seq::<u8>::empty(),
{
    lemma_repeat_empty(f.current_indent as nat);
    assert(f.line_break() =~= Seq::<u8>::empty());
}

/// Repeating nothing gives nothing.
pub proof fn lemma_repeat_empty(n: nat)
    ensures
        repeat(seq![], n) == Seq::<u8>::empty(),
    decreases n,
{
    if n > 0 {
        lemma_repeat_empty((n - 1) as nat);
        assert(repeat(seq![], (n - 1) as nat) + seq![] =~= Seq::<u8>::empty());
    }
}

} // verus!
