//! Pages of a listing: which page is asked for, and where a page stands in
//! the whole.
use vstd::prelude::*;

verus! {

/// The page asked for; a missing field takes its default.
pub struct Pagination {
    pub page: Option<i64>,
    pub page_size: Option<i64>,
}

impl Default for Pagination {
    fn default() -> (r: Pagination)
        ensures
            r.page == Some(1i64),
            r.page_size == Some(15i64),
    {
        Pagination { page: Some(1), page_size: Some(15) }
    }
}

impl Pagination {
    /// The page number and page size to use, and the number of rows before
    /// that page: page 1 and 10 rows unless asked otherwise.
    pub fn window(&self) -> (r: (i64, i64, i64))
        requires
            ({
                let page = match self.page {
                    Some(p) => p as int,
                    None => 1,
                };
                let size = match self.page_size {
                    Some(s) => s as int,
                    None => 10,
                };
                i64::MIN <= page - 1 && i64::MIN <= (page - 1) * size <= i64::MAX
            }),
        ensures
            r.0 == match self.page {
                Some(p) => p,
                None => 1,
            },
            r.1 == match self.page_size {
                Some(s) => s,
                None => 10,
            },
            r.2 == (r.0 - 1) * r.1,
    {
        let page = match self.page {
            Some(p) => p,
            None => 1,
        };
        let page_size = match self.page_size {
            Some(s) => s,
            None => 10,
        };
        (page, page_size, (page - 1) * page_size)
    }
}

/// One page of `items` out of `total`, numbered from 1.
pub struct PaginatedResponse<T> {
    pub items: Vec<T>,
    pub total: i64,
    pub start: i64,
    pub end: i64,
    pub page: i64,
    pub page_size: i64,
    pub has_next: bool,
    pub has_prev: bool,
}

impl<T> PaginatedResponse<T> {
    /// Places page `page` of size `page_size`, holding `items`, among `total`
    /// rows: it starts at row `(page - 1) * page_size + 1` and ends at
    /// `page * page_size` or at the last row; a later page exists while rows
    /// remain after this one.
    pub fn new(items: Vec<T>, total: i64, page: i64, page_size: i64) -> (r: PaginatedResponse<T>)
        requires
            i64::MIN <= page - 1,
            i64::MIN <= (page - 1) * page_size <= i64::MAX,
            i64::MIN <= page * page_size <= i64::MAX,
            items@.len() <= i64::MAX,
            (page - 1) * page_size + items@.len() <= i64::MAX,
            (page - 1) * page_size + 1 <= i64::MAX,
        ensures
            r.items@ == items@,
            r.total == total,
            r.page == page,
            r.page_size == page_size,
            r.has_prev == (page > 1),
            r.has_next == ((page - 1) * page_size + items@.len() < total),
            r.start == (page - 1) * page_size + 1,
            r.end == if page * page_size < total {
                page * page_size
            } else {
                total as int
            },
    {
        let offset = (page - 1) * page_size;
        let has_prev = page > 1;
        let has_next = offset + (items.len() as i64) < total;
        let start = offset + 1;
        let full = page * page_size;
        let end = if full < total {
            full
        } else {
            total
        };
        PaginatedResponse { items, total, start, end, page, page_size, has_next, has_prev }
    }
}

impl<T> Default for PaginatedResponse<T> {
    fn default() -> (r: PaginatedResponse<T>)
        ensures
            r.items@.len() == 0,
            r.total == 0,
            r.page == 1,
            r.start == 1,
            r.end == 1,
            r.page_size == 10,
            !r.has_next,
            !r.has_prev,
    {
        PaginatedResponse {
            items: Vec::new(),
            total: 0,
            page: 1,
            start: 1,
            end: 1,
            page_size: 10,
            has_next: false,
            has_prev: false,
        }
    }
}

} // verus!
