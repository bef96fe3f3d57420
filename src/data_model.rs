use vstd::prelude::*;

verus! {

/// One row of gridded samples.
#[derive(Clone)]
pub struct Data1d<T> {
    pub columns: Vec<T>,
}

impl<T: Copy + Default> Data1d<T> {
    /// A row of `size` samples, each the type's default value.
    pub fn new(size: usize) -> (d: Data1d<T>)
        ensures
            d.columns@.len() == size,
            forall|j: int| 0 <= j < size ==> #[trigger] d.columns@[j] == d.columns@[0],
            size > 0 ==> call_ensures(T::default, (), d.columns@[0]),
    {
        let fill = T::default();
        let mut columns: Vec<T> = Vec::with_capacity(size);
        let mut j: usize = 0;
        while j < size
            invariant
                0 <= j <= size,
                columns@.len() == j,
                forall|k: int| 0 <= k < j ==> columns@[k] == fill,
            decreases size - j,
        {
            columns.push(fill);
            j += 1;
        }
        Data1d { columns }
    }

    pub fn width(&self) -> (w: usize)
        ensures
            w == self.columns@.len(),
    {
        self.columns.len()
    }
}

/// A grid of samples stored row by row.
#[derive(Clone)]
pub struct Data2d<T> {
    pub rows: Vec<Data1d<T>>,
}

impl<T: Copy + Default> Data2d<T> {
    /// A `width` by `height` grid whose samples all hold one value, the
    /// type's default.
    pub fn new(width: usize, height: usize) -> (d: Data2d<T>)
        ensures
            d.rows@.len() == height,
            forall|i: int| 0 <= i < height ==> d.rows@[i].columns@.len() == width,
            forall|i: int, j: int|
                0 <= i < height && 0 <= j < width ==> #[trigger] d.rows@[i].columns@[j]
                    == d.rows@[0].columns@[0],
            height > 0 && width > 0 ==> call_ensures(T::default, (), d.rows@[0].columns@[0]),
    {
        let fill = T::default();
        let mut rows: Vec<Data1d<T>> = Vec::with_capacity(height);
        let mut i: usize = 0;
        while i < height
            invariant
                0 <= i <= height,
                rows@.len() == i,
                forall|k: int| 0 <= k < i ==> rows@[k].columns@.len() == width,
                forall|k: int, j: int| 0 <= k < i && 0 <= j < width ==> rows@[k].columns@[j] == fill,
            decreases height - i,
        {
            let mut columns: Vec<T> = Vec::with_capacity(width);
            let mut j: usize = 0;
            while j < width
                invariant
                    0 <= j <= width,
                    columns@.len() == j,
                    forall|k: int| 0 <= k < j ==> columns@[k] == fill,
                decreases width - j,
            {
                columns.push(fill);
                j += 1;
            }
            rows.push(Data1d { columns });
            i += 1;
        }
        Data2d { rows }
    }

    /// The number of samples in a row; zero for a grid without rows.
    pub fn width(&self) -> (w: usize)
        ensures
            w == if self.rows@.len() == 0 {
                0
            } else {
                self.rows@[0].columns@.len()
            },
    {
        if self.rows.len() == 0 {
            return 0;
        }
        self.rows[0].width()
    }

    /// The number of rows.
    pub fn height(&self) -> (h: usize)
        ensures
            h == self.rows@.len(),
    {
        self.rows.len()
    }
}

} // verus!
