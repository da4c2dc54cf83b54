use vstd::prelude::*;

verus! {

/// Whether a file extension already marks a pre-compressed file: it ends in
/// `br`, compared without regard to ASCII case.
pub open spec fn marks_compressed(ext: Seq<u8>) -> bool {
    &&& ext.len() >= 2
    &&& (ext[ext.len() - 2] == 98u8 || ext[ext.len() - 2] == 66u8)
    &&& (ext[ext.len() - 1] == 114u8 || ext[ext.len() - 1] == 82u8)
}

/// The extension of the pre-compressed sibling of a file: its extension with
/// `.br` appended, plain `br` for a file without one, and nothing for a file
/// that is itself already a `br` file.
pub fn compressed_extension(ext: Option<&Vec<u8>>) -> (r: Option<Vec<u8>>)
    ensures
        match ext {
            Some(e) => if marks_compressed(e@) {
                r is None
            } else {
                r matches Some(n) && n@ == e@ + seq![46u8, 98u8, 114u8]
            },
            None => (r matches Some(n) && n@ == seq![98u8, 114u8]),
        },
{
    match ext {
        Some(e) => {
            let n = e.len();
            let is_br = n >= 2 && (e[n - 2] == 98 || e[n - 2] == 66) && (e[n - 1] == 114 || e[n
                - 1] == 82);
            if is_br {
                None
            } else {
                let mut out: Vec<u8> = Vec::new();
                let mut i: usize = 0;
                while i < n
                    invariant
                        0 <= i <= n,
                        n == e@.len(),
                        out@ == e@.subrange(0, i as int),
                    decreases n - i,
                {
                    out.push(e[i]);
                    proof {
                        assert(out@ =~= e@.subrange(0, i as int + 1));
                    }
                    i += 1;
                }
                proof {
                    assert(e@.subrange(0, n as int) =~= e@);
                }
                out.push(46);
                out.push(98);
                out.push(114);
                proof {
                    assert(out@ =~= e@ + seq![46u8, 98u8, 114u8]);
                }
                Some(out)
            }
        },
        None => {
            let mut out: Vec<u8> = Vec::new();
            out.push(98);
            out.push(114);
            proof {
                assert(out@ =~= seq![98u8, 114u8]);
            }
            Some(out)
        },
    }
}

} // verus!
