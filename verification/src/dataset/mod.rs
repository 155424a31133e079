pub mod mnist;
