use vstd::prelude::*;

verus! {

/// Is `b` a UTF-8 continuation byte?
pub open spec fn utf8_cont(b: u8) -> bool {
    0x80 <= b < 0xC0
}

/// UTF-8 well-formedness of a byte string: the shortest-form encoding rules,
/// excluding surrogates and code points above U+10FFFF.
pub open spec fn is_utf8(s: Seq<u8>) -> bool
    decreases s.len(),
{
    if s.len() == 0 {
        true
    } else {
        let b0 = s[0];
        if b0 < 0x80 {
            is_utf8(s.skip(1))
        } else if b0 < 0xC2 {
            false
        } else if b0 < 0xE0 {
            s.len() >= 2 && utf8_cont(s[1]) && is_utf8(s.skip(2))
        } else if b0 < 0xF0 {
            s.len() >= 3 && (if b0 == 0xE0 {
                0xA0 <= s[1] < 0xC0
            } else if b0 == 0xED {
                0x80 <= s[1] < 0xA0
            } else {
                utf8_cont(s[1])
            }) && utf8_cont(s[2]) && is_utf8(s.skip(3))
        } else if b0 < 0xF5 {
            s.len() >= 4 && (if b0 == 0xF0 {
                0x90 <= s[1] < 0xC0
            } else if b0 == 0xF4 {
                0x80 <= s[1] < 0x90
            } else {
                utf8_cont(s[1])
            }) && utf8_cont(s[2]) && utf8_cont(s[3]) && is_utf8(s.skip(4))
        } else {
            false
        }
    }
}

/// Decides UTF-8 well-formedness of `data[start..end]`.
pub fn is_utf8_range(data: &[u8], start: usize, end: usize) -> (r: bool)
    requires
        start <= end <= data@.len(),
    ensures
        r == is_utf8(data@.subrange(start as int, end as int)),
{
    let ghost s = data@.subrange(start as int, end as int);
    proof {
        assert(s.skip(0) =~= s);
    }
    let mut i: usize = start;
    while i < end
        invariant
            start <= i <= end <= data@.len(),
            s == data@.subrange(start as int, end as int),
            is_utf8(s) == is_utf8(s.skip(i - start)),
        decreases end - i,
    {
        let ghost rem = s.skip(i - start);
        proof {
            assert(rem.len() == end - i);
            assert(rem[0] == data@[i as int]);
        }
        let b0 = data[i];
        if b0 < 0x80 {
            proof {
                assert(rem.skip(1) =~= s.skip(i + 1 - start));
            }
            i = i + 1;
        } else if b0 < 0xC2 {
            return false;
        } else if b0 < 0xE0 {
            if end - i < 2 {
                return false;
            }
            proof {
                assert(rem[1] == data@[i + 1]);
            }
            let b1 = data[i + 1];
            if !(0x80 <= b1 && b1 < 0xC0) {
                return false;
            }
            proof {
                assert(rem.skip(2) =~= s.skip(i + 2 - start));
            }
            i = i + 2;
        } else if b0 < 0xF0 {
            if end - i < 3 {
                return false;
            }
            proof {
                assert(rem[1] == data@[i + 1]);
                assert(rem[2] == data@[i + 2]);
            }
            let b1 = data[i + 1];
            let b2 = data[i + 2];
            let b1_ok = if b0 == 0xE0 {
                0xA0 <= b1 && b1 < 0xC0
            } else if b0 == 0xED {
                0x80 <= b1 && b1 < 0xA0
            } else {
                0x80 <= b1 && b1 < 0xC0
            };
            if !b1_ok || !(0x80 <= b2 && b2 < 0xC0) {
                return false;
            }
            proof {
                assert(rem.skip(3) =~= s.skip(i + 3 - start));
            }
            i = i + 3;
        } else if b0 < 0xF5 {
            if end - i < 4 {
                return false;
            }
            proof {
                assert(rem[1] == data@[i + 1]);
                assert(rem[2] == data@[i + 2]);
                assert(rem[3] == data@[i + 3]);
            }
            let b1 = data[i + 1];
            let b2 = data[i + 2];
            let b3 = data[i + 3];
            let b1_ok = if b0 == 0xF0 {
                0x90 <= b1 && b1 < 0xC0
            } else if b0 == 0xF4 {
                0x80 <= b1 && b1 < 0x90
            } else {
                0x80 <= b1 && b1 < 0xC0
            };
            if !b1_ok || !(0x80 <= b2 && b2 < 0xC0) || !(0x80 <= b3 && b3 < 0xC0) {
                return false;
            }
            proof {
                assert(rem.skip(4) =~= s.skip(i + 4 - start));
            }
            i = i + 4;
        } else {
            return false;
        }
    }
    proof {
        assert(s.skip(s.len() as int) =~= Seq::<u8>::empty());
    }
    true
}

} // verus!
