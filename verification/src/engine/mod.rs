pub mod matching;
