//! Commit messages of grouped changes.
use vstd::prelude::*;
use crate::text::push_text;

verus! {

/// `ops` joined with line feeds between them.
pub open spec fn joined(ops: Seq<String>) -> Seq<char>
    decreases ops.len(),
{
    if ops.len() == 0 {
        Seq::empty()
    } else if ops.len() == 1 {
        ops[0]@
    } else {
        joined(ops.drop_last()) + seq!['\n'] + ops.last()@
    }
}

/// The message of a group of changes: the title alone when nothing was
/// recorded, else the title, a blank line and one line per change.
pub fn transaction_message(message: &str, operations: &Vec<String>) -> (r: String)
    ensures
        operations@.len() == 0 ==> r@ == message@,
        operations@.len() > 0 ==> r@ == message@ + seq!['\n', '\n'] + joined(operations@),
{
    let mut r = String::new();
    push_text(&mut r, message);
    if operations.len() == 0 {
        return r;
    }
    crate::text::push_char(&mut r, '\n');
    crate::text::push_char(&mut r, '\n');
    let ghost head = r@;
    let mut i: usize = 0;
    while i < operations.len()
        invariant
            i <= operations@.len(),
            operations@.len() > 0,
            r@ == head + joined(operations@.subrange(0, i as int)),
        decreases operations@.len() - i,
    {
        if i > 0 {
            crate::text::push_char(&mut r, '\n');
        }
        push_text(&mut r, operations[i].as_str());
        proof {
            let s = operations@.subrange(0, i + 1);
            assert(s.drop_last() =~= operations@.subrange(0, i as int));
            if i == 0 {
                assert(joined(operations@.subrange(0, 0)) =~= Seq::<char>::empty());
            }
        }
        assert(r@ =~= head + joined(operations@.subrange(0, i + 1)));
        i = i + 1;
    }
    assert(operations@.subrange(0, operations@.len() as int) =~= operations@);
    r
}

} // verus!
