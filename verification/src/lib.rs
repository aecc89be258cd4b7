pub mod cal;
pub mod cat;
pub mod chars;
pub mod comm;
pub mod cut;
pub mod extract;
pub mod find;
pub mod fortune;
pub mod grep;
pub mod head;
pub mod ls;
pub mod numfmt;
pub mod ranges;
pub mod tail;
pub mod text;
pub mod uniq;
pub mod wc;
